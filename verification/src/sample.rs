//! Audio sample types and their representation as offset-binary values.
//!
//! Every integer sample type is modelled by two numbers: its width in bits and its value measured
//! from the most negative sample (offset binary). Signed and unsigned types of the same width
//! share this model, and silence (`MID`) always sits at half of the range.

use vstd::prelude::*;
use vstd::arithmetic::power2::{pow2, lemma2_to64};
use vstd::std_specs::convert::FromSpecImpl;
use vstd::std_specs::ops::{AddSpecImpl, SubSpecImpl};

verus! {

/// SampleFormat describes the data encoding for an audio sample.
#[derive(Copy, Clone, Debug, PartialEq, Eq, Structural)]
pub enum SampleFormat {
    /// Unsigned 8bit integer.
    U8,
    /// Unsigned 16bit integer.
    U16,
    /// Unsigned 24bit integer.
    U24,
    /// Unsigned 32bit integer.
    U32,
    /// Signed 8bit integer.
    S8,
    /// Signed 16bit integer.
    S16,
    /// Signed 24bit integer.
    S24,
    /// Signed 32bit integer.
    S32,
    /// Floating point, 32bit.
    F32,
    /// Floating point, 64bit.
    F64,
}

/// `Sample` provides a common interface for manipulating samples regardless of the underlying
/// data type.
pub trait Sample: Copy + Sized {
    /// The primitive data type, or fixed-size byte array, that represents the sample when
    /// exported.
    type StreamType: Copy;

    /// A unique enum value representing the sample format.
    const FORMAT: SampleFormat;


    /// The number of significant bits of the sample.
    spec fn sample_bits() -> nat;

    /// The sample's value measured from the most negative sample value.
    spec fn offset(self) -> int;

    /// Whether the in-memory value is the canonical representation of its sample value.
    spec fn canonical(self) -> bool;

    /// The width is a whole number of bytes between one and four, the offset lies in the range
    /// of the width, and silence lies at half of the range.
    proof fn lemma_sample_model(self)
        ensures
            Self::sample_bits() == 8 || Self::sample_bits() == 16 || Self::sample_bits() == 24
                || Self::sample_bits() == 32,
            0 <= self.offset() < pow2(Self::sample_bits()),
    ;

    /// Two canonical samples with the same offset are the same sample.
    proof fn lemma_offset_injective(self, other: Self)
        requires
            self.canonical(),
            other.canonical(),
            self.offset() == other.offset(),
        ensures
            self == other,
    ;

    /// The mid-point value between the maximum and minimum sample value. If a sample is set to
    /// this value, it is silent.
    fn mid() -> (r: Self)
        ensures
            r.offset() == pow2((Self::sample_bits() - 1) as nat),
            r.canonical(),
    ;

    /// Returns the offset-binary value of the sample.
    fn to_offset(self) -> (r: u32)
        ensures
            r == self.offset(),
    ;

    /// Returns the canonical sample with the given offset-binary value.
    fn from_offset(u: u32) -> (r: Self)
        requires
            u < pow2(Self::sample_bits()),
        ensures
            r.offset() == u,
            r.canonical(),
    ;
}

/// An unsigned 24-bit integer sample.
#[allow(non_camel_case_types)]
#[derive(Copy, Clone, Debug, PartialEq, Eq, Structural, PartialOrd, Ord, Default)]
pub struct u24(pub u32);

/// A signed 24-bit integer sample.
#[allow(non_camel_case_types)]
#[derive(Copy, Clone, Debug, PartialEq, Eq, Structural, PartialOrd, Ord, Default)]
pub struct i24(pub i32);

impl Sample for u8 {
    type StreamType = u8;

    const FORMAT: SampleFormat = SampleFormat::U8;

    fn mid() -> (r: u8) {
        proof {
            lemma2_to64();
        }
        128u8
    }

    open spec fn sample_bits() -> nat {
        8
    }

    open spec fn offset(self) -> int {
        self as int
    }

    open spec fn canonical(self) -> bool {
        true
    }

    proof fn lemma_sample_model(self) {
        lemma2_to64();
    }

    proof fn lemma_offset_injective(self, other: Self) {
    }

    fn to_offset(self) -> (r: u32) {
        self as u32
    }

    fn from_offset(u: u32) -> (r: Self) {
        proof {
            lemma2_to64();
        }
        u as u8
    }
}

impl Sample for i8 {
    type StreamType = i8;

    const FORMAT: SampleFormat = SampleFormat::S8;

    fn mid() -> (r: i8) {
        proof {
            lemma2_to64();
        }
        0i8
    }

    open spec fn sample_bits() -> nat {
        8
    }

    open spec fn offset(self) -> int {
        self + 0x80
    }

    open spec fn canonical(self) -> bool {
        true
    }

    proof fn lemma_sample_model(self) {
        lemma2_to64();
    }

    proof fn lemma_offset_injective(self, other: Self) {
    }

    fn to_offset(self) -> (r: u32) {
        (self as i32 + 0x80) as u32
    }

    fn from_offset(u: u32) -> (r: Self) {
        proof {
            lemma2_to64();
        }
        (u as i32 - 0x80) as i8
    }
}

impl Sample for u16 {
    type StreamType = u16;

    const FORMAT: SampleFormat = SampleFormat::U16;

    fn mid() -> (r: u16) {
        proof {
            lemma2_to64();
        }
        32_768u16
    }

    open spec fn sample_bits() -> nat {
        16
    }

    open spec fn offset(self) -> int {
        self as int
    }

    open spec fn canonical(self) -> bool {
        true
    }

    proof fn lemma_sample_model(self) {
        lemma2_to64();
    }

    proof fn lemma_offset_injective(self, other: Self) {
    }

    fn to_offset(self) -> (r: u32) {
        self as u32
    }

    fn from_offset(u: u32) -> (r: Self) {
        proof {
            lemma2_to64();
        }
        u as u16
    }
}

impl Sample for i16 {
    type StreamType = i16;

    const FORMAT: SampleFormat = SampleFormat::S16;

    fn mid() -> (r: i16) {
        proof {
            lemma2_to64();
        }
        0i16
    }

    open spec fn sample_bits() -> nat {
        16
    }

    open spec fn offset(self) -> int {
        self + 0x8000
    }

    open spec fn canonical(self) -> bool {
        true
    }

    proof fn lemma_sample_model(self) {
        lemma2_to64();
    }

    proof fn lemma_offset_injective(self, other: Self) {
    }

    fn to_offset(self) -> (r: u32) {
        (self as i32 + 0x8000) as u32
    }

    fn from_offset(u: u32) -> (r: Self) {
        proof {
            lemma2_to64();
        }
        (u as i32 - 0x8000) as i16
    }
}

impl Sample for u24 {
    type StreamType = [u8; 3];

    const FORMAT: SampleFormat = SampleFormat::U24;

    fn mid() -> (r: u24) {
        proof {
            lemma2_to64();
        }
        u24(8_388_608u32)
    }

    open spec fn sample_bits() -> nat {
        24
    }

    /// Only the low 24 bits of the stored value carry the sample.
    open spec fn offset(self) -> int {
        self.0 as int % 0x100_0000
    }

    open spec fn canonical(self) -> bool {
        self.0 < 0x100_0000
    }

    proof fn lemma_sample_model(self) {
        lemma2_to64();
    }

    proof fn lemma_offset_injective(self, other: Self) {
    }

    fn to_offset(self) -> (r: u32) {
        self.0 % 0x100_0000
    }

    fn from_offset(u: u32) -> (r: Self) {
        proof {
            lemma2_to64();
        }
        u24(u)
    }
}

impl Sample for i24 {
    type StreamType = [u8; 3];

    const FORMAT: SampleFormat = SampleFormat::S24;

    fn mid() -> (r: i24) {
        proof {
            lemma2_to64();
        }
        i24(0i32)
    }

    open spec fn sample_bits() -> nat {
        24
    }

    /// Only the low 24 bits of the stored value carry the sample, read in two's complement.
    open spec fn offset(self) -> int {
        (self.0 + 0x80_0000) % 0x100_0000
    }

    open spec fn canonical(self) -> bool {
        -0x80_0000 <= self.0 < 0x80_0000
    }

    proof fn lemma_sample_model(self) {
        lemma2_to64();
    }

    proof fn lemma_offset_injective(self, other: Self) {
    }

    fn to_offset(self) -> (r: u32) {
        // Adding a multiple of 2^24 first keeps the sum non-negative without changing its low
        // 24 bits.
        let shifted: u64 = (self.0 as i64 + 0x8080_0000) as u64;
        (shifted % 0x100_0000) as u32
    }

    fn from_offset(u: u32) -> (r: Self) {
        proof {
            lemma2_to64();
        }
        i24(u as i32 - 0x80_0000)
    }
}

impl Sample for u32 {
    type StreamType = u32;

    const FORMAT: SampleFormat = SampleFormat::U32;

    fn mid() -> (r: u32) {
        proof {
            lemma2_to64();
        }
        2_147_483_648u32
    }

    open spec fn sample_bits() -> nat {
        32
    }

    open spec fn offset(self) -> int {
        self as int
    }

    open spec fn canonical(self) -> bool {
        true
    }

    proof fn lemma_sample_model(self) {
        lemma2_to64();
    }

    proof fn lemma_offset_injective(self, other: Self) {
    }

    fn to_offset(self) -> (r: u32) {
        self
    }

    fn from_offset(u: u32) -> (r: Self) {
        u
    }
}

impl Sample for i32 {
    type StreamType = i32;

    const FORMAT: SampleFormat = SampleFormat::S32;

    fn mid() -> (r: i32) {
        proof {
            lemma2_to64();
            assert(pow2(31) == 0x8000_0000);
        }
        let r: i32 = 0;
        assert(r.offset() == pow2((Self::sample_bits() - 1) as nat));
        assert(r.canonical());
        r
    }

    open spec fn sample_bits() -> nat {
        32
    }

    open spec fn offset(self) -> int {
        self + 0x8000_0000
    }

    open spec fn canonical(self) -> bool {
        true
    }

    proof fn lemma_sample_model(self) {
        lemma2_to64();
    }

    proof fn lemma_offset_injective(self, other: Self) {
    }

    fn to_offset(self) -> (r: u32) {
        (self as i64 + 0x8000_0000) as u32
    }

    fn from_offset(u: u32) -> (r: Self) {
        proof {
            lemma2_to64();
        }
        (u as i64 - 0x8000_0000) as i32
    }
}

/// The four bytes of `x`, least significant first.
pub open spec fn le_bytes4(x: u32) -> Seq<u8> {
    seq![(x % 0x100) as u8, (x / 0x100 % 0x100) as u8, (x / 0x1_0000 % 0x100) as u8,
        (x / 0x100_0000) as u8]
}

/// The four bytes of `x`, most significant first.
pub open spec fn be_bytes4(x: u32) -> Seq<u8> {
    le_bytes4(x).reverse()
}

/// The low three bytes of `x` in the byte order of the platform: least significant first on a
/// little-endian platform, most significant first on a big-endian one.
pub open spec fn is_ne_bytes3(b: Seq<u8>, x: u32) -> bool {
    ||| b == le_bytes4(x).take(3)
    ||| b == le_bytes4(x).take(3).reverse()
}

/// Calls `u32::to_ne_bytes` on `x` and on `1`. The platform is either little-endian or
/// big-endian, and both results are laid out in its byte order. Which of the two orders it is
/// is left open.
#[verifier::external_body]
fn ne_bytes_with_probe(x: u32) -> (r: ([u8; 4], [u8; 4]))
    ensures
        (r.0@ == le_bytes4(x) && r.1@ == le_bytes4(1)) || (r.0@ == be_bytes4(x) && r.1@
            == be_bytes4(1)),
{
    (x.to_ne_bytes(), 1u32.to_ne_bytes())
}

/// Lays out the low three bytes of `x` in the platform's byte order.
fn low_bytes3_ne(x: u32) -> (r: [u8; 3])
    ensures
        is_ne_bytes3(r@, x),
{
    let (b, probe) = ne_bytes_with_probe(x);
    if probe[0] == 1 {
        let r = [b[0], b[1], b[2]];
        assert(r@ =~= le_bytes4(x).take(3));
        r
    } else {
        proof {
            assert(le_bytes4(1)[0] == 1);
            assert(be_bytes4(1)[0] == 0);
        }
        let r = [b[1], b[2], b[3]];
        assert(r@ =~= le_bytes4(x).take(3).reverse());
        r
    }
}

impl i24 {
    /// The largest value of a signed 24-bit sample.
    pub fn max_value() -> (r: i24)
        ensures
            r.0 == 8_388_607,
    {
        i24(8_388_607i32)
    }

    /// The smallest value of a signed 24-bit sample.
    pub fn min_value() -> (r: i24)
        ensures
            r.0 == -8_388_608,
    {
        i24(-8_388_608i32)
    }

    /// Values are kept as given: no saturation takes place.
    fn saturate_overflow(self) -> (r: Self)
        ensures
            r == self,
    {
        self
    }

    /// Returns the stored value.
    pub fn into_i32(self) -> (r: i32)
        ensures
            r == self.0,
    {
        self.0
    }

    /// Returns the low three bytes of the stored value in the platform's byte order.
    pub fn to_ne_bytes(&self) -> (r: [u8; 3])
        ensures
            is_ne_bytes3(r@, self.0 as u32),
    {
        low_bytes3_ne(self.0 as u32)
    }
}

impl u24 {
    /// The largest value of an unsigned 24-bit sample.
    pub fn max_value() -> (r: u24)
        ensures
            r.0 == 16_777_215,
    {
        u24(16_777_215u32)
    }

    /// The smallest value of an unsigned 24-bit sample.
    pub fn min_value() -> (r: u24)
        ensures
            r.0 == 0,
    {
        u24(0u32)
    }

    /// Values are kept as given: no saturation takes place.
    fn saturate_overflow(self) -> (r: Self)
        ensures
            r == self,
    {
        self
    }

    /// Returns the stored value.
    pub fn into_u32(self) -> (r: u32)
        ensures
            r == self.0,
    {
        self.0
    }

    /// Returns the low three bytes of the stored value in the platform's byte order.
    pub fn to_ne_bytes(&self) -> (r: [u8; 3])
        ensures
            is_ne_bytes3(r@, self.0),
    {
        low_bytes3_ne(self.0)
    }
}

impl From<i32> for i24 {
    fn from(val: i32) -> (r: Self) {
        i24(val).saturate_overflow()
    }
}

impl FromSpecImpl<i32> for i24 {
    open spec fn obeys_from_spec() -> bool {
        true
    }

    open spec fn from_spec(v: i32) -> i24 {
        i24(v)
    }
}

impl From<i16> for i24 {
    fn from(val: i16) -> (r: Self) {
        i24(val as i32)
    }
}

impl FromSpecImpl<i16> for i24 {
    open spec fn obeys_from_spec() -> bool {
        true
    }

    open spec fn from_spec(v: i16) -> i24 {
        i24(v as i32)
    }
}

impl From<i8> for i24 {
    fn from(val: i8) -> (r: Self) {
        i24(val as i32)
    }
}

impl FromSpecImpl<i8> for i24 {
    open spec fn obeys_from_spec() -> bool {
        true
    }

    open spec fn from_spec(v: i8) -> i24 {
        i24(v as i32)
    }
}

impl From<u32> for u24 {
    fn from(val: u32) -> (r: Self) {
        u24(val).saturate_overflow()
    }
}

impl FromSpecImpl<u32> for u24 {
    open spec fn obeys_from_spec() -> bool {
        true
    }

    open spec fn from_spec(v: u32) -> u24 {
        u24(v)
    }
}

impl From<u16> for u24 {
    fn from(val: u16) -> (r: Self) {
        u24(val as u32)
    }
}

impl FromSpecImpl<u16> for u24 {
    open spec fn obeys_from_spec() -> bool {
        true
    }

    open spec fn from_spec(v: u16) -> u24 {
        u24(v as u32)
    }
}

impl From<u8> for u24 {
    fn from(val: u8) -> (r: Self) {
        u24(val as u32)
    }
}

impl FromSpecImpl<u8> for u24 {
    open spec fn obeys_from_spec() -> bool {
        true
    }

    open spec fn from_spec(v: u8) -> u24 {
        u24(v as u32)
    }
}

impl core::ops::Add<i24> for i24 {
    type Output = i24;

    fn add(self, other: Self) -> (r: Self) {
        i24(self.0 + other.0)
    }
}

impl AddSpecImpl<i24> for i24 {
    open spec fn obeys_add_spec() -> bool {
        true
    }

    open spec fn add_req(self, rhs: i24) -> bool {
        i32::MIN <= self.0 + rhs.0 <= i32::MAX
    }

    open spec fn add_spec(self, rhs: i24) -> i24 {
        i24((self.0 + rhs.0) as i32)
    }
}

impl core::ops::Sub<i24> for i24 {
    type Output = i24;

    fn sub(self, other: Self) -> (r: Self) {
        i24(self.0 - other.0)
    }
}

impl SubSpecImpl<i24> for i24 {
    open spec fn obeys_sub_spec() -> bool {
        true
    }

    open spec fn sub_req(self, rhs: i24) -> bool {
        i32::MIN <= self.0 - rhs.0 <= i32::MAX
    }

    open spec fn sub_spec(self, rhs: i24) -> i24 {
        i24((self.0 - rhs.0) as i32)
    }
}

impl core::ops::Add<u24> for u24 {
    type Output = u24;

    fn add(self, other: Self) -> (r: Self) {
        u24(self.0 + other.0)
    }
}

impl AddSpecImpl<u24> for u24 {
    open spec fn obeys_add_spec() -> bool {
        true
    }

    open spec fn add_req(self, rhs: u24) -> bool {
        self.0 + rhs.0 <= u32::MAX
    }

    open spec fn add_spec(self, rhs: u24) -> u24 {
        u24((self.0 + rhs.0) as u32)
    }
}

impl core::ops::Sub<u24> for u24 {
    type Output = u24;

    fn sub(self, other: Self) -> (r: Self) {
        u24(self.0 - other.0)
    }
}

impl SubSpecImpl<u24> for u24 {
    open spec fn obeys_sub_spec() -> bool {
        true
    }

    open spec fn sub_req(self, rhs: u24) -> bool {
        self.0 >= rhs.0
    }

    open spec fn sub_spec(self, rhs: u24) -> u24 {
        u24((self.0 - rhs.0) as u32)
    }
}

} // verus!
