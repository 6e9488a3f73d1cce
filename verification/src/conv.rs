//! Conversion between sample types.
//!
//! A conversion keeps the position of a sample within its range: widening shifts the
//! offset-binary value up by the difference of the widths, narrowing shifts it down and drops the
//! low bits. No dither is applied.

use vstd::prelude::*;
use vstd::arithmetic::power2::{pow2, lemma2_to64, lemma_pow2_adds, lemma_pow2_pos};
use vstd::arithmetic::div_mod::{
    lemma_div_is_ordered, lemma_div_multiples_vanish, lemma_div_pos_is_pos, lemma_multiply_divide_lt,
};
use vstd::arithmetic::mul::{
    lemma_mul_basics, lemma_mul_is_commutative, lemma_mul_nonnegative, lemma_mul_strict_inequality,
};
use crate::sample::{u24, i24, Sample};

verus! {

/// Whether `bits` is the width of one of the integer sample types.
pub open spec fn valid_width(bits: nat) -> bool {
    bits == 8 || bits == 16 || bits == 24 || bits == 32
}

/// The offset-binary value `u` of a `from_bits` wide sample, moved to a `to_bits` wide sample:
/// widening appends zero bits, narrowing drops the low bits.
pub open spec fn rescale(u: int, from_bits: nat, to_bits: nat) -> int {
    if to_bits >= from_bits {
        u * pow2((to_bits - from_bits) as nat)
    } else {
        u / (pow2((from_bits - to_bits) as nat) as int)
    }
}

/// Converts a sample of one type and value to another type with an equivalent value.
///
/// This may be a lossy conversion if converting from a sample type of higher precision to one of
/// lower precision. No dither is applied.
pub trait FromSample<F: Sample>: Sample {
    fn from_sample(val: F) -> (r: Self)
        ensures
            r.offset() == rescale(val.offset(), F::sample_bits(), Self::sample_bits()),
            val.canonical() ==> r.canonical(),
    ;
}

/// Converts a sample into a sample of another type, as `FromSample` of the target type does.
pub trait IntoSample<T: Sample>: Sample {
    fn into_sample(self) -> (r: T)
        ensures
            r.offset() == rescale(self.offset(), Self::sample_bits(), T::sample_bits()),
            self.canonical() ==> r.canonical(),
    ;
}

impl<F: Sample, T: FromSample<F>> IntoSample<T> for F {
    fn into_sample(self) -> (r: T) {
        T::from_sample(self)
    }
}

/// A sample type that converts to and from `S`.
pub trait ConvertibleSample<S: Sample>: FromSample<S> + IntoSample<S> {}

/// Clamps the given value to the [0, 255] range.
pub fn clamp_u8(val: u16) -> (r: u8)
    ensures
        r == if val <= 0xff { val as int } else { 0xff },
{
    if val <= 0xff {
        val as u8
    } else {
        0xff
    }
}

/// Clamps the given value to the [-128, 127] range.
pub fn clamp_i8(val: i16) -> (r: i8)
    ensures
        r == if val < -0x80 { -0x80 } else if val > 0x7f { 0x7f } else { val as int },
{
    if val < -0x80 {
        -0x80
    } else if val > 0x7f {
        0x7f
    } else {
        val as i8
    }
}

/// Clamps the given value to the [0, 65535] range.
pub fn clamp_u16(val: u32) -> (r: u16)
    ensures
        r == if val <= 0xffff { val as int } else { 0xffff },
{
    if val <= 0xffff {
        val as u16
    } else {
        0xffff
    }
}

/// Clamps the given value to the [-32768, 32767] range.
pub fn clamp_i16(val: i32) -> (r: i16)
    ensures
        r == if val < -0x8000 { -0x8000 } else if val > 0x7fff { 0x7fff } else { val as int },
{
    if val < -0x8000 {
        -0x8000
    } else if val > 0x7fff {
        0x7fff
    } else {
        val as i16
    }
}

/// Clamps the given value to the [0, 16777215] range.
pub fn clamp_u24(val: u32) -> (r: u32)
    ensures
        r == if val <= 0xff_ffff { val as int } else { 0xff_ffff },
{
    if val <= 0xff_ffff {
        val
    } else {
        0xff_ffff
    }
}

/// Clamps the given value to the [-8388608, 8388607] range.
pub fn clamp_i24(val: i32) -> (r: i32)
    ensures
        r == if val < -0x80_0000 { -0x80_0000 } else if val > 0x7f_ffff { 0x7f_ffff } else {
            val as int
        },
{
    if val < -0x80_0000 {
        -0x80_0000
    } else if val > 0x7f_ffff {
        0x7f_ffff
    } else {
        val
    }
}

/// Clamps the given value to the [0, 4294967295] range.
pub fn clamp_u32(val: u64) -> (r: u32)
    ensures
        r == if val <= 0xffff_ffff { val as int } else { 0xffff_ffff },
{
    if val <= 0xffff_ffff {
        val as u32
    } else {
        0xffff_ffff
    }
}

/// Clamps the given value to the [-2147483648, 2147483647] range.
pub fn clamp_i32(val: i64) -> (r: i32)
    ensures
        r == if val < -0x8000_0000 { -0x8000_0000 } else if val > 0x7fff_ffff { 0x7fff_ffff } else {
            val as int
        },
{
    if val < -0x8000_0000 {
        -0x8000_0000
    } else if val > 0x7fff_ffff {
        0x7fff_ffff
    } else {
        val as i32
    }
}

/// Silence stays silence: the middle of one range is moved to the middle of the other.
pub proof fn lemma_rescale_keeps_silence(a: nat, b: nat)
    requires
        valid_width(a),
        valid_width(b),
    ensures
        rescale(pow2((a - 1) as nat) as int, a, b) == pow2((b - 1) as nat),
{
    if b >= a {
        lemma_pow2_adds((a - 1) as nat, (b - a) as nat);
    } else {
        let d = pow2((a - b) as nat) as int;
        lemma_pow2_pos((a - b) as nat);
        lemma_pow2_adds((b - 1) as nat, (a - b) as nat);
        lemma_mul_is_commutative(pow2((b - 1) as nat) as int, d);
        lemma_div_multiples_vanish(pow2((b - 1) as nat) as int, d);
    }
}

/// The most negative sample stays the most negative sample.
pub proof fn lemma_rescale_keeps_minimum(a: nat, b: nat)
    requires
        valid_width(a),
        valid_width(b),
    ensures
        rescale(0, a, b) == 0,
{
    lemma2_to64();
}

/// A converted sample lies in the range of the target width.
pub proof fn lemma_rescale_in_range(u: int, a: nat, b: nat)
    requires
        valid_width(a),
        valid_width(b),
        0 <= u < pow2(a),
    ensures
        0 <= rescale(u, a, b) < pow2(b),
{
    if b >= a {
        let d = pow2((b - a) as nat) as int;
        lemma_pow2_pos((b - a) as nat);
        lemma_pow2_adds(a, (b - a) as nat);
        lemma_mul_nonnegative(u, d);
        lemma_mul_strict_inequality(u, pow2(a) as int, d);
    } else {
        let d = pow2((a - b) as nat) as int;
        lemma_pow2_pos((a - b) as nat);
        lemma_pow2_adds(b, (a - b) as nat);
        lemma_div_pos_is_pos(u, d);
        lemma_mul_is_commutative(pow2(b) as int, d);
        lemma_multiply_divide_lt(u, d, pow2(b) as int);
    }
}

/// Conversion keeps the order of samples.
pub proof fn lemma_rescale_monotonic(u1: int, u2: int, a: nat, b: nat)
    requires
        valid_width(a),
        valid_width(b),
        0 <= u1 <= u2,
    ensures
        rescale(u1, a, b) <= rescale(u2, a, b),
{
    lemma2_to64();
    if b < a {
        lemma_div_is_ordered(u1, u2, pow2((a - b) as nat) as int);
    } else {
        let d = pow2((b - a) as nat);
        assert(u1 * d <= u2 * d) by (nonlinear_arith)
            requires
                u1 <= u2,
                d > 0,
        ;
    }
}

/// Converting to a type at least as wide and back gives the sample that was converted.
pub proof fn lemma_rescale_round_trip(u: int, a: nat, b: nat)
    requires
        valid_width(a),
        valid_width(b),
        a <= b,
    ensures
        rescale(rescale(u, a, b), b, a) == u,
{
    let d = pow2((b - a) as nat) as int;
    lemma_pow2_pos((b - a) as nat);
    lemma_mul_is_commutative(u, d);
    if a < b {
        lemma_div_multiples_vanish(u, d);
    } else {
        lemma_rescale_same(u, a);
    }
}

/// Converting between types of the same width keeps the offset-binary value.
pub proof fn lemma_rescale_same(u: int, a: nat)
    ensures
        rescale(u, a, a) == u,
{
    lemma2_to64();
    lemma_mul_basics(u);
}

impl FromSample<u8> for u8 {
    fn from_sample(val: u8) -> (r: u8)
    {
        proof {
            lemma2_to64();
            val.lemma_sample_model();
            lemma_rescale_same(val.offset(), 8);
        }
        val
    }
}

impl FromSample<u16> for u8 {
    fn from_sample(val: u16) -> (r: u8)
    {
        proof {
            lemma2_to64();
            val.lemma_sample_model();
        }
        u8::from_offset(val.to_offset() / 0x100)
    }
}

impl FromSample<u24> for u8 {
    fn from_sample(val: u24) -> (r: u8)
    {
        proof {
            lemma2_to64();
            val.lemma_sample_model();
        }
        u8::from_offset(val.to_offset() / 0x10000)
    }
}

impl FromSample<u32> for u8 {
    fn from_sample(val: u32) -> (r: u8)
    {
        proof {
            lemma2_to64();
            val.lemma_sample_model();
        }
        u8::from_offset(val.to_offset() / 0x1000000)
    }
}

impl FromSample<i8> for u8 {
    fn from_sample(val: i8) -> (r: u8)
    {
        proof {
            lemma2_to64();
            val.lemma_sample_model();
            lemma_rescale_same(val.offset(), 8);
        }
        u8::from_offset(val.to_offset())
    }
}

impl FromSample<i16> for u8 {
    fn from_sample(val: i16) -> (r: u8)
    {
        proof {
            lemma2_to64();
            val.lemma_sample_model();
        }
        u8::from_offset(val.to_offset() / 0x100)
    }
}

impl FromSample<i24> for u8 {
    fn from_sample(val: i24) -> (r: u8)
    {
        proof {
            lemma2_to64();
            val.lemma_sample_model();
        }
        u8::from_offset(val.to_offset() / 0x10000)
    }
}

impl FromSample<i32> for u8 {
    fn from_sample(val: i32) -> (r: u8)
    {
        proof {
            lemma2_to64();
            val.lemma_sample_model();
        }
        u8::from_offset(val.to_offset() / 0x1000000)
    }
}

impl FromSample<u8> for u16 {
    fn from_sample(val: u8) -> (r: u16)
    {
        proof {
            lemma2_to64();
            val.lemma_sample_model();
        }
        u16::from_offset(val.to_offset() * 0x100)
    }
}

impl FromSample<u16> for u16 {
    fn from_sample(val: u16) -> (r: u16)
    {
        proof {
            lemma2_to64();
            val.lemma_sample_model();
            lemma_rescale_same(val.offset(), 16);
        }
        val
    }
}

impl FromSample<u24> for u16 {
    fn from_sample(val: u24) -> (r: u16)
    {
        proof {
            lemma2_to64();
            val.lemma_sample_model();
        }
        u16::from_offset(val.to_offset() / 0x100)
    }
}

impl FromSample<u32> for u16 {
    fn from_sample(val: u32) -> (r: u16)
    {
        proof {
            lemma2_to64();
            val.lemma_sample_model();
        }
        u16::from_offset(val.to_offset() / 0x10000)
    }
}

impl FromSample<i8> for u16 {
    fn from_sample(val: i8) -> (r: u16)
    {
        proof {
            lemma2_to64();
            val.lemma_sample_model();
        }
        u16::from_offset(val.to_offset() * 0x100)
    }
}

impl FromSample<i16> for u16 {
    fn from_sample(val: i16) -> (r: u16)
    {
        proof {
            lemma2_to64();
            val.lemma_sample_model();
            lemma_rescale_same(val.offset(), 16);
        }
        u16::from_offset(val.to_offset())
    }
}

impl FromSample<i24> for u16 {
    fn from_sample(val: i24) -> (r: u16)
    {
        proof {
            lemma2_to64();
            val.lemma_sample_model();
        }
        u16::from_offset(val.to_offset() / 0x100)
    }
}

impl FromSample<i32> for u16 {
    fn from_sample(val: i32) -> (r: u16)
    {
        proof {
            lemma2_to64();
            val.lemma_sample_model();
        }
        u16::from_offset(val.to_offset() / 0x10000)
    }
}

impl FromSample<u8> for u24 {
    fn from_sample(val: u8) -> (r: u24)
        ensures
            r.canonical(),
    {
        proof {
            lemma2_to64();
            val.lemma_sample_model();
        }
        u24::from_offset(val.to_offset() * 0x10000)
    }
}

impl FromSample<u16> for u24 {
    fn from_sample(val: u16) -> (r: u24)
        ensures
            r.canonical(),
    {
        proof {
            lemma2_to64();
            val.lemma_sample_model();
        }
        u24::from_offset(val.to_offset() * 0x100)
    }
}

impl FromSample<u24> for u24 {
    fn from_sample(val: u24) -> (r: u24)
        ensures
            r.canonical(),
    {
        proof {
            lemma2_to64();
            val.lemma_sample_model();
            lemma_rescale_same(val.offset(), 24);
        }
        u24::from_offset(val.to_offset())
    }
}

impl FromSample<u32> for u24 {
    fn from_sample(val: u32) -> (r: u24)
        ensures
            r.canonical(),
    {
        proof {
            lemma2_to64();
            val.lemma_sample_model();
        }
        u24::from_offset(val.to_offset() / 0x100)
    }
}

impl FromSample<i8> for u24 {
    fn from_sample(val: i8) -> (r: u24)
        ensures
            r.canonical(),
    {
        proof {
            lemma2_to64();
            val.lemma_sample_model();
        }
        u24::from_offset(val.to_offset() * 0x10000)
    }
}

impl FromSample<i16> for u24 {
    fn from_sample(val: i16) -> (r: u24)
        ensures
            r.canonical(),
    {
        proof {
            lemma2_to64();
            val.lemma_sample_model();
        }
        u24::from_offset(val.to_offset() * 0x100)
    }
}

impl FromSample<i24> for u24 {
    fn from_sample(val: i24) -> (r: u24)
        ensures
            r.canonical(),
    {
        proof {
            lemma2_to64();
            val.lemma_sample_model();
            lemma_rescale_same(val.offset(), 24);
        }
        u24::from_offset(val.to_offset())
    }
}

impl FromSample<i32> for u24 {
    fn from_sample(val: i32) -> (r: u24)
        ensures
            r.canonical(),
    {
        proof {
            lemma2_to64();
            val.lemma_sample_model();
        }
        u24::from_offset(val.to_offset() / 0x100)
    }
}

impl FromSample<u8> for u32 {
    fn from_sample(val: u8) -> (r: u32)
    {
        proof {
            lemma2_to64();
            val.lemma_sample_model();
        }
        u32::from_offset(val.to_offset() * 0x1000000)
    }
}

impl FromSample<u16> for u32 {
    fn from_sample(val: u16) -> (r: u32)
    {
        proof {
            lemma2_to64();
            val.lemma_sample_model();
        }
        u32::from_offset(val.to_offset() * 0x10000)
    }
}

impl FromSample<u24> for u32 {
    fn from_sample(val: u24) -> (r: u32)
    {
        proof {
            lemma2_to64();
            val.lemma_sample_model();
        }
        u32::from_offset(val.to_offset() * 0x100)
    }
}

impl FromSample<u32> for u32 {
    fn from_sample(val: u32) -> (r: u32)
    {
        proof {
            lemma2_to64();
            val.lemma_sample_model();
            lemma_rescale_same(val.offset(), 32);
        }
        val
    }
}

impl FromSample<i8> for u32 {
    fn from_sample(val: i8) -> (r: u32)
    {
        proof {
            lemma2_to64();
            val.lemma_sample_model();
        }
        u32::from_offset(val.to_offset() * 0x1000000)
    }
}

impl FromSample<i16> for u32 {
    fn from_sample(val: i16) -> (r: u32)
    {
        proof {
            lemma2_to64();
            val.lemma_sample_model();
        }
        u32::from_offset(val.to_offset() * 0x10000)
    }
}

impl FromSample<i24> for u32 {
    fn from_sample(val: i24) -> (r: u32)
    {
        proof {
            lemma2_to64();
            val.lemma_sample_model();
        }
        u32::from_offset(val.to_offset() * 0x100)
    }
}

impl FromSample<i32> for u32 {
    fn from_sample(val: i32) -> (r: u32)
    {
        proof {
            lemma2_to64();
            val.lemma_sample_model();
            lemma_rescale_same(val.offset(), 32);
        }
        u32::from_offset(val.to_offset())
    }
}

impl FromSample<u8> for i8 {
    fn from_sample(val: u8) -> (r: i8)
    {
        proof {
            lemma2_to64();
            val.lemma_sample_model();
            lemma_rescale_same(val.offset(), 8);
        }
        i8::from_offset(val.to_offset())
    }
}

impl FromSample<u16> for i8 {
    fn from_sample(val: u16) -> (r: i8)
    {
        proof {
            lemma2_to64();
            val.lemma_sample_model();
        }
        i8::from_offset(val.to_offset() / 0x100)
    }
}

impl FromSample<u24> for i8 {
    fn from_sample(val: u24) -> (r: i8)
    {
        proof {
            lemma2_to64();
            val.lemma_sample_model();
        }
        i8::from_offset(val.to_offset() / 0x10000)
    }
}

impl FromSample<u32> for i8 {
    fn from_sample(val: u32) -> (r: i8)
    {
        proof {
            lemma2_to64();
            val.lemma_sample_model();
        }
        i8::from_offset(val.to_offset() / 0x1000000)
    }
}

impl FromSample<i8> for i8 {
    fn from_sample(val: i8) -> (r: i8)
    {
        proof {
            lemma2_to64();
            val.lemma_sample_model();
            lemma_rescale_same(val.offset(), 8);
        }
        val
    }
}

impl FromSample<i16> for i8 {
    fn from_sample(val: i16) -> (r: i8)
    {
        proof {
            lemma2_to64();
            val.lemma_sample_model();
        }
        i8::from_offset(val.to_offset() / 0x100)
    }
}

impl FromSample<i24> for i8 {
    fn from_sample(val: i24) -> (r: i8)
    {
        proof {
            lemma2_to64();
            val.lemma_sample_model();
        }
        i8::from_offset(val.to_offset() / 0x10000)
    }
}

impl FromSample<i32> for i8 {
    fn from_sample(val: i32) -> (r: i8)
    {
        proof {
            lemma2_to64();
            val.lemma_sample_model();
        }
        i8::from_offset(val.to_offset() / 0x1000000)
    }
}

impl FromSample<u8> for i16 {
    fn from_sample(val: u8) -> (r: i16)
    {
        proof {
            lemma2_to64();
            val.lemma_sample_model();
        }
        i16::from_offset(val.to_offset() * 0x100)
    }
}

impl FromSample<u16> for i16 {
    fn from_sample(val: u16) -> (r: i16)
    {
        proof {
            lemma2_to64();
            val.lemma_sample_model();
            lemma_rescale_same(val.offset(), 16);
        }
        i16::from_offset(val.to_offset())
    }
}

impl FromSample<u24> for i16 {
    fn from_sample(val: u24) -> (r: i16)
    {
        proof {
            lemma2_to64();
            val.lemma_sample_model();
        }
        i16::from_offset(val.to_offset() / 0x100)
    }
}

impl FromSample<u32> for i16 {
    fn from_sample(val: u32) -> (r: i16)
    {
        proof {
            lemma2_to64();
            val.lemma_sample_model();
        }
        i16::from_offset(val.to_offset() / 0x10000)
    }
}

impl FromSample<i8> for i16 {
    fn from_sample(val: i8) -> (r: i16)
    {
        proof {
            lemma2_to64();
            val.lemma_sample_model();
        }
        i16::from_offset(val.to_offset() * 0x100)
    }
}

impl FromSample<i16> for i16 {
    fn from_sample(val: i16) -> (r: i16)
    {
        proof {
            lemma2_to64();
            val.lemma_sample_model();
            lemma_rescale_same(val.offset(), 16);
        }
        val
    }
}

impl FromSample<i24> for i16 {
    fn from_sample(val: i24) -> (r: i16)
    {
        proof {
            lemma2_to64();
            val.lemma_sample_model();
        }
        i16::from_offset(val.to_offset() / 0x100)
    }
}

impl FromSample<i32> for i16 {
    fn from_sample(val: i32) -> (r: i16)
    {
        proof {
            lemma2_to64();
            val.lemma_sample_model();
        }
        i16::from_offset(val.to_offset() / 0x10000)
    }
}

impl FromSample<u8> for i24 {
    fn from_sample(val: u8) -> (r: i24)
        ensures
            r.canonical(),
    {
        proof {
            lemma2_to64();
            val.lemma_sample_model();
        }
        i24::from_offset(val.to_offset() * 0x10000)
    }
}

impl FromSample<u16> for i24 {
    fn from_sample(val: u16) -> (r: i24)
        ensures
            r.canonical(),
    {
        proof {
            lemma2_to64();
            val.lemma_sample_model();
        }
        i24::from_offset(val.to_offset() * 0x100)
    }
}

impl FromSample<u24> for i24 {
    fn from_sample(val: u24) -> (r: i24)
        ensures
            r.canonical(),
    {
        proof {
            lemma2_to64();
            val.lemma_sample_model();
            lemma_rescale_same(val.offset(), 24);
        }
        i24::from_offset(val.to_offset())
    }
}

impl FromSample<u32> for i24 {
    fn from_sample(val: u32) -> (r: i24)
        ensures
            r.canonical(),
    {
        proof {
            lemma2_to64();
            val.lemma_sample_model();
        }
        i24::from_offset(val.to_offset() / 0x100)
    }
}

impl FromSample<i8> for i24 {
    fn from_sample(val: i8) -> (r: i24)
        ensures
            r.canonical(),
    {
        proof {
            lemma2_to64();
            val.lemma_sample_model();
        }
        i24::from_offset(val.to_offset() * 0x10000)
    }
}

impl FromSample<i16> for i24 {
    fn from_sample(val: i16) -> (r: i24)
        ensures
            r.canonical(),
    {
        proof {
            lemma2_to64();
            val.lemma_sample_model();
        }
        i24::from_offset(val.to_offset() * 0x100)
    }
}

impl FromSample<i24> for i24 {
    fn from_sample(val: i24) -> (r: i24)
        ensures
            r == val,
    {
        proof {
            lemma2_to64();
            val.lemma_sample_model();
            lemma_rescale_same(val.offset(), 24);
        }
        val
    }
}

impl FromSample<i32> for i24 {
    fn from_sample(val: i32) -> (r: i24)
        ensures
            r.canonical(),
    {
        proof {
            lemma2_to64();
            val.lemma_sample_model();
        }
        i24::from_offset(val.to_offset() / 0x100)
    }
}

impl FromSample<u8> for i32 {
    fn from_sample(val: u8) -> (r: i32)
    {
        proof {
            lemma2_to64();
            val.lemma_sample_model();
        }
        i32::from_offset(val.to_offset() * 0x1000000)
    }
}

impl FromSample<u16> for i32 {
    fn from_sample(val: u16) -> (r: i32)
    {
        proof {
            lemma2_to64();
            val.lemma_sample_model();
        }
        i32::from_offset(val.to_offset() * 0x10000)
    }
}

impl FromSample<u24> for i32 {
    fn from_sample(val: u24) -> (r: i32)
    {
        proof {
            lemma2_to64();
            val.lemma_sample_model();
        }
        i32::from_offset(val.to_offset() * 0x100)
    }
}

impl FromSample<u32> for i32 {
    fn from_sample(val: u32) -> (r: i32)
    {
        proof {
            lemma2_to64();
            val.lemma_sample_model();
            lemma_rescale_same(val.offset(), 32);
        }
        i32::from_offset(val.to_offset())
    }
}

impl FromSample<i8> for i32 {
    fn from_sample(val: i8) -> (r: i32)
    {
        proof {
            lemma2_to64();
            val.lemma_sample_model();
        }
        i32::from_offset(val.to_offset() * 0x1000000)
    }
}

impl FromSample<i16> for i32 {
    fn from_sample(val: i16) -> (r: i32)
    {
        proof {
            lemma2_to64();
            val.lemma_sample_model();
        }
        i32::from_offset(val.to_offset() * 0x10000)
    }
}

impl FromSample<i24> for i32 {
    fn from_sample(val: i24) -> (r: i32)
    {
        proof {
            lemma2_to64();
            val.lemma_sample_model();
        }
        i32::from_offset(val.to_offset() * 0x100)
    }
}

impl FromSample<i32> for i32 {
    fn from_sample(val: i32) -> (r: i32)
    {
        proof {
            lemma2_to64();
            val.lemma_sample_model();
            lemma_rescale_same(val.offset(), 32);
        }
        val
    }
}

} // verus!
