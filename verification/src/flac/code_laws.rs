//! Laws of the FLAC codes, stated independently of how the decoder writes its tables down:
//! what the stereo modes do to a pair of channels, what the codes of a frame header stand for,
//! and how Rice folding maps words to signed values.

use vstd::prelude::*;
use vstd::arithmetic::power2::lemma2_to64;
use vstd::arithmetic::div_mod::{lemma_fundamental_div_mod, lemma_mod_multiples_vanish};
use crate::flac::arith::{wrap_i32, lemma_wrap_i32};
use crate::flac::laws::lemma_unwrap;
use crate::flac::subframe::rice_signed;
use crate::flac::frame::{ChannelAssignment, frame_header, be_u16_at};
use crate::flac::decoder::decorrelated;

verus! {

/// Wrapping is compatible with subtraction: wrapping the subtrahend first changes nothing.
proof fn lemma_wrap_sub(x: int, y: int)
    ensures
        wrap_i32(x - wrap_i32(y)) == wrap_i32(x - y),
{
    let m: int = 0x1_0000_0000;
    let z = y + 0x8000_0000;
    lemma_fundamental_div_mod(z, m);
    let q = z / m;
    assert(x - wrap_i32(y) + 0x8000_0000 == m * q + (x - y + 0x8000_0000));
    lemma_mod_multiples_vanish(q, x - y + 0x8000_0000, m);
}

/// The stereo modes are undone exactly, sample by sample. Left/side keeps the left channel and
/// right/side the right one, and in both the restored left and right samples differ by the coded
/// difference, modulo 2^32. Mid/side restores a left and a right sample whose difference is the
/// coded difference and whose average, rounded down, is the coded mid sample (for samples of at
/// most 30 bits, where no intermediate value wraps).
pub proof fn lemma_stereo_decorrelation(assign: ChannelAssignment, cs: Seq<Seq<i32>>, i: int)
    requires
        !(assign is Independant),
        cs.len() == 2,
        cs[0].len() == cs[1].len(),
        0 <= i < cs[0].len(),
    ensures
        ({
            let out = decorrelated(assign, cs);
            let l = out[0][i] as int;
            let r = out[1][i] as int;
            &&& out.len() == 2
            &&& out[0].len() == cs[0].len()
            &&& out[1].len() == cs[1].len()
            &&& assign == ChannelAssignment::LeftSide ==> l == cs[0][i] && wrap_i32(l - r)
                == cs[1][i]
            &&& assign == ChannelAssignment::RightSide ==> r == cs[1][i] && wrap_i32(l - r)
                == cs[0][i]
            &&& assign == ChannelAssignment::MidSide && -0x2000_0000 <= cs[0][i] < 0x2000_0000
                && -0x2000_0000 <= cs[1][i] < 0x2000_0000 ==> l - r == cs[1][i] && (l + r) / 2
                == cs[0][i]
        }),
{
    let a = cs[0][i] as int;
    let b = cs[1][i] as int;
    let out = decorrelated(assign, cs);
    if assign == ChannelAssignment::LeftSide {
        lemma_wrap_i32(a - b);
        assert(out[1][i] as int == wrap_i32(a - b));
        lemma_wrap_sub(a, a - b);
        lemma_wrap_i32(b);
    } else if assign == ChannelAssignment::RightSide {
        lemma_wrap_i32(a + b);
        assert(out[0][i] as int == wrap_i32(a + b));
        lemma_unwrap(a, b);
    } else {
        if -0x2000_0000 <= a < 0x2000_0000 && -0x2000_0000 <= b < 0x2000_0000 {
            let t = b % 2;
            let k = b / 2;
            assert(b == 2 * k + t && 0 <= t <= 1);
            lemma_wrap_i32(2 * a + t);
            let d2 = 2 * a + t;
            lemma_wrap_i32(d2 + b);
            lemma_wrap_i32(d2 - b);
            assert((d2 + b) / 2 == a + t + k);
            assert((d2 - b) / 2 == a - k);
            assert(out[0][i] as int == a + t + k);
            assert(out[1][i] as int == a - k);
            assert((2 * a + t) / 2 == a);
        }
    }
}

/// The block size of a frame is coded by the high nibble of the first byte after the
/// synchronization code: 1 is 192 samples, 2 to 5 are 576, 1152, 2304 and 4608 samples, 8 to 15
/// are 256 samples doubled 0 to 7 times, and 6 takes one less than the size (at most 256) from the
/// byte that follows; a header with code 0 is refused.
pub proof fn lemma_block_size_codes(d: Seq<u8>, pos: int, sync: u16)
    requires
        0 <= pos,
        pos + 2 <= d.len(),
    ensures
        frame_header(d, pos, sync).0 matches Ok(h) ==> {
            let code = d[pos] / 16;
            let n = h.block_num_samples;
            &&& code != 0
            &&& code == 1 ==> n == 192
            &&& code == 2 ==> n == 576
            &&& code == 3 ==> n == 1152
            &&& code == 4 ==> n == 2304
            &&& code == 5 ==> n == 4608
            &&& code == 6 ==> 1 <= n <= 256
            &&& code == 8 ==> n == 256
            &&& code == 9 ==> n == 512
            &&& code == 10 ==> n == 1024
            &&& code == 11 ==> n == 2048
            &&& code == 12 ==> n == 4096
            &&& code == 13 ==> n == 8192
            &&& code == 14 ==> n == 16384
            &&& code == 15 ==> n == 32768
        },
{
    let desc = be_u16_at(d, pos);
    let a = d[pos] as int;
    let b = d[pos + 1] as int;
    assert(desc / 4096 == a / 16) by (nonlinear_arith)
        requires
            desc == a * 256 + b,
            0 <= a < 256,
            0 <= b < 256,
    ;
    lemma2_to64();
}

/// The sample rate of a frame is coded by the low nibble of the first byte after the
/// synchronization code: 0 leaves it to the stream, 1 to 11 are 88.2, 176.4, 192, 8, 16, 22.05,
/// 24, 32, 44.1, 48 and 96 kHz, 12 reads it in Hz from one following byte, 13 from two, and 14
/// reads it in tens of Hz from two; a header with code 15 is refused.
pub proof fn lemma_sample_rate_codes(d: Seq<u8>, pos: int, sync: u16)
    requires
        0 <= pos,
        pos + 2 <= d.len(),
    ensures
        frame_header(d, pos, sync).0 matches Ok(h) ==> {
            let code = d[pos] % 16;
            let rate = h.sample_rate;
            &&& code != 15
            &&& code == 0 ==> rate is None
            &&& code == 1 ==> rate == Some(88_200u32)
            &&& code == 2 ==> rate == Some(176_400u32)
            &&& code == 3 ==> rate == Some(192_000u32)
            &&& code == 4 ==> rate == Some(8_000u32)
            &&& code == 5 ==> rate == Some(16_000u32)
            &&& code == 6 ==> rate == Some(22_050u32)
            &&& code == 7 ==> rate == Some(24_000u32)
            &&& code == 8 ==> rate == Some(32_000u32)
            &&& code == 9 ==> rate == Some(44_100u32)
            &&& code == 10 ==> rate == Some(48_000u32)
            &&& code == 11 ==> rate == Some(96_000u32)
            &&& code == 12 ==> (rate matches Some(r) && 1 <= r <= 255)
            &&& code == 13 ==> (rate matches Some(r) && 1 <= r <= 65535)
            &&& code == 14 ==> (rate matches Some(r) && 10 <= r <= 655_350 && r % 10
                == 0)
        },
{
    let desc = be_u16_at(d, pos);
    let a = d[pos] as int;
    let b = d[pos + 1] as int;
    assert(desc / 256 % 16 == a % 16) by (nonlinear_arith)
        requires
            desc == a * 256 + b,
            0 <= a < 256,
            0 <= b < 256,
    ;
}

/// The bits per sample of a frame are coded by bits 1 to 3 of the second byte after the
/// synchronization code: 0 leaves them to the stream, 1, 2, 4, 5 and 6 are 8, 12, 16, 20 and 24
/// bits; a header with code 3 or 7 is refused.
pub proof fn lemma_bits_per_sample_codes(d: Seq<u8>, pos: int, sync: u16)
    requires
        0 <= pos,
        pos + 2 <= d.len(),
    ensures
        frame_header(d, pos, sync).0 matches Ok(h) ==> {
            let code = d[pos + 1] / 2 % 8;
            let bps = h.bits_per_sample;
            &&& code != 3 && code != 7
            &&& code == 0 ==> bps is None
            &&& code == 1 ==> bps == Some(8u32)
            &&& code == 2 ==> bps == Some(12u32)
            &&& code == 4 ==> bps == Some(16u32)
            &&& code == 5 ==> bps == Some(20u32)
            &&& code == 6 ==> bps == Some(24u32)
        },
{
    let desc = be_u16_at(d, pos);
    let a = d[pos] as int;
    let b = d[pos + 1] as int;
    assert(desc / 2 % 8 == b / 2 % 8) by (nonlinear_arith)
        requires
            desc == a * 256 + b,
            0 <= a < 256,
            0 <= b < 256,
    ;
}

/// Rice folding maps the words one to one onto the integers: even words give the non-negative
/// values and odd words the negative ones, and different words give different values.
pub proof fn lemma_rice_signed_one_to_one(w1: u32, w2: u32)
    ensures
        (rice_signed(w1) >= 0) == (w1 % 2 == 0),
        w1 != w2 ==> rice_signed(w1) != rice_signed(w2),
{
}

} // verus!
