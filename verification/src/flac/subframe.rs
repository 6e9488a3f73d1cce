//! Decoding of FLAC subframes: warm-up samples, Rice coded residuals, and the fixed and linear
//! predictors that restore the audio from them.

use vstd::prelude::*;
use vstd::arithmetic::power2::{pow2, lemma2_to64};
use crate::flac::arith::{wrap_i32, wrap_to_i32, floor_shr, lemma_wrap_i32};
use crate::flac::residual::{
    escaped_residuals, escaped_step, residual, decode_residual, decode_verbatim, read_escaped_residual,
};
use crate::errors::{Error, decode_error, unsupported_error};
use crate::io::{BitStreamLtr, eof, pow2_u64};
use crate::io::bits_model::{bit_at, bits_val, first_one, lemma_bits_val_bound};
use crate::util::bits::{sign_extend, sign_extend_leq32_to_i32};

verus! {

/// The signed value of a Rice folded word: even words are the non-negative values, odd words the
/// negative ones (0, -1, 1, -2, 2, ...).
pub open spec fn rice_signed(word: u32) -> int {
    if word % 2 == 0 {
        word as int / 2
    } else {
        -(word as int / 2) - 1
    }
}

/// Converts a Rice folded word to a signed integer.
pub fn rice_signed_to_i32(word: u32) -> (r: i32)
    ensures
        r == rice_signed(word),
{
    let div2 = (word / 2) as i32;
    if word % 2 == 0 {
        div2
    } else {
        -div2 - 1
    }
}

/// Restores the right channel from the left channel and the difference channel (R = L - D), for
/// as many samples as both slices hold.
pub fn decorrelate_left_side(left: &[i32], side: &mut [i32])
    ensures
        final(side)@.len() == old(side)@.len(),
        forall|i: int|
            0 <= i < old(side)@.len() ==> #[trigger] final(side)@[i] == if i < left@.len() {
                wrap_i32(left@[i] - old(side)@[i])
            } else {
                old(side)@[i] as int
            },
{
    let n = if left.len() < side.len() {
        left.len()
    } else {
        side.len()
    };
    let mut i: usize = 0;
    while i < n
        invariant
            n <= left@.len(),
            n <= side@.len(),
            side@.len() == old(side)@.len(),
            i <= n,
            n == left@.len() || n == side@.len(),
            forall|k: int| 0 <= k < i ==> #[trigger] side@[k] == wrap_i32(left@[k] - old(side)@[k]),
            forall|k: int| i <= k < side@.len() ==> #[trigger] side@[k] == old(side)@[k],
        decreases n - i,
    {
        let v = wrap_to_i32(left[i] as i64 - side[i] as i64);
        side[i] = v;
        i = i + 1;
    }
}

/// Restores the left channel from the difference channel and the right channel (L = D + R), for
/// as many samples as both slices hold.
pub fn decorrelate_right_side(right: &[i32], side: &mut [i32])
    ensures
        final(side)@.len() == old(side)@.len(),
        forall|i: int|
            0 <= i < old(side)@.len() ==> #[trigger] final(side)@[i] == if i < right@.len() {
                wrap_i32(old(side)@[i] + right@[i])
            } else {
                old(side)@[i] as int
            },
{
    let n = if right.len() < side.len() {
        right.len()
    } else {
        side.len()
    };
    let mut i: usize = 0;
    while i < n
        invariant
            n <= right@.len(),
            n <= side@.len(),
            side@.len() == old(side)@.len(),
            i <= n,
            n == right@.len() || n == side@.len(),
            forall|k: int|
                0 <= k < i ==> #[trigger] side@[k] == wrap_i32(old(side)@[k] + right@[k]),
            forall|k: int| i <= k < side@.len() ==> #[trigger] side@[k] == old(side)@[k],
        decreases n - i,
    {
        let v = wrap_to_i32(side[i] as i64 + right[i] as i64);
        side[i] = v;
        i = i + 1;
    }
}

/// Twice the mid sample with the parity of the difference restored: `2M + (S mod 2)`.
pub open spec fn mid_side_doubled(mid: i32, side: i32) -> int {
    wrap_i32(2 * mid + side % 2)
}

/// The left sample restored from a mid and a difference sample: `(2M + (S mod 2) + S) / 2`.
pub open spec fn mid_side_left(mid: i32, side: i32) -> int {
    wrap_i32(mid_side_doubled(mid, side) + side) / 2
}

/// The right sample restored from a mid and a difference sample: `(2M + (S mod 2) - S) / 2`.
pub open spec fn mid_side_right(mid: i32, side: i32) -> int {
    wrap_i32(mid_side_doubled(mid, side) - side) / 2
}

/// Restores the left channel (into `mid`) and the right channel (into `side`) from the mid and
/// difference channels, for as many samples as both slices hold.
pub fn decorrelate_mid_side(mid: &mut [i32], side: &mut [i32])
    ensures
        final(mid)@.len() == old(mid)@.len(),
        final(side)@.len() == old(side)@.len(),
        forall|i: int|
            0 <= i < old(mid)@.len() ==> #[trigger] final(mid)@[i] == if i < old(side)@.len() {
                mid_side_left(old(mid)@[i], old(side)@[i])
            } else {
                old(mid)@[i] as int
            },
        forall|i: int|
            0 <= i < old(side)@.len() ==> #[trigger] final(side)@[i] == if i < old(mid)@.len() {
                mid_side_right(old(mid)@[i], old(side)@[i])
            } else {
                old(side)@[i] as int
            },
{
    let n = if mid.len() < side.len() {
        mid.len()
    } else {
        side.len()
    };
    let mut i: usize = 0;
    while i < n
        invariant
            n <= mid@.len(),
            n <= side@.len(),
            mid@.len() == old(mid)@.len(),
            side@.len() == old(side)@.len(),
            i <= n,
            n == mid@.len() || n == side@.len(),
            forall|k: int|
                0 <= k < i ==> #[trigger] mid@[k] == mid_side_left(old(mid)@[k], old(side)@[k]),
            forall|k: int|
                0 <= k < i ==> #[trigger] side@[k] == mid_side_right(old(mid)@[k], old(side)@[k]),
            forall|k: int| i <= k < mid@.len() ==> #[trigger] mid@[k] == old(mid)@[k],
            forall|k: int| i <= k < side@.len() ==> #[trigger] side@[k] == old(side)@[k],
        decreases n - i,
    {
        let m = mid[i];
        let s = side[i];
        let parity: i64 = if s % 2 == 0 {
            0
        } else {
            1
        };
        proof {
            assert(parity == s as int % 2);
        }
        let doubled = wrap_to_i32(2 * (m as i64) + parity);
        let l = floor_shr(wrap_to_i32(doubled as i64 + s as i64) as i64, 1);
        let r = floor_shr(wrap_to_i32(doubled as i64 - s as i64) as i64, 1);
        proof {
            lemma2_to64();
            lemma_wrap_i32(doubled as int + s);
            lemma_wrap_i32(doubled as int - s);
        }
        mid[i] = l as i32;
        side[i] = r as i32;
        i = i + 1;
    }
}

/// The sum of `coeffs[k - 1] * s[i - k]` for `k` from 1 to `n`: the prediction of sample `i`
/// from the `n` samples before it.
pub open spec fn prediction_sum(coeffs: Seq<i32>, s: Seq<i32>, i: int, n: nat) -> int
    decreases n,
{
    if n == 0 {
        0
    } else {
        prediction_sum(coeffs, s, i, (n - 1) as nat) + coeffs[n - 1] * s[i - n]
    }
}

/// The first `n` samples restored by a linear predictor with the given coefficients (the first
/// applying to the previous sample) and right shift, from the warm-up samples and residuals in
/// `res`. The first `coeffs.len()` samples are the warm-up samples themselves; every later one is
/// its residual plus the shifted prediction from the samples restored before it, wrapped to 32
/// bits.
#[verifier::opaque]
pub open spec fn lpc_restore(coeffs: Seq<i32>, shift: nat, res: Seq<i32>, n: nat) -> Seq<i32>
    decreases n,
{
    if n == 0 {
        seq![]
    } else {
        let prev = lpc_restore(coeffs, shift, res, (n - 1) as nat);
        let i = n - 1;
        if i < coeffs.len() {
            prev.push(res[i])
        } else {
            prev.push(
                wrap_i32(
                    res[i] + prediction_sum(coeffs, prev, i, coeffs.len()) / (pow2(shift) as int),
                ) as i32,
            )
        }
    }
}

proof fn lemma_lpc_restore_len(coeffs: Seq<i32>, shift: nat, res: Seq<i32>, n: nat)
    ensures
        lpc_restore(coeffs, shift, res, n).len() == n,
    decreases n,
{
    reveal_with_fuel(lpc_restore, 1);
    if n > 0 {
        lemma_lpc_restore_len(coeffs, shift, res, (n - 1) as nat);
    }
}

/// Dividing by a positive number, rounding down, keeps a value within a symmetric bound.
proof fn lemma_floor_div_bound(x: int, d: int, b: int)
    requires
        d >= 1,
        b >= 0,
        -b <= x <= b,
    ensures
        -b <= x / d <= b,
{
    vstd::arithmetic::div_mod::lemma_div_is_ordered(x, b, d);
    vstd::arithmetic::div_mod::lemma_div_is_ordered(-b, x, d);
    vstd::arithmetic::div_mod::lemma_div_is_ordered_by_denominator(b, 1, d);
    vstd::arithmetic::div_mod::lemma_fundamental_div_mod(-b, d);
    vstd::arithmetic::div_mod::lemma_mod_bound(-b, d);
    assert(d * ((-b) / d) >= -b - d + 1);
    assert(-b / d >= -b) by (nonlinear_arith)
        requires
            d >= 1,
            b >= 0,
            d * ((-b) / d) >= -b - d + 1,
    ;
}

/// Runs a linear predictor over `buf`, whose first `coeffs.len()` samples are warm-up samples and
/// whose remaining samples are residuals.
fn lpc_predict(coeffs: &[i32], shift: u32, buf: &mut [i32])
    requires
        coeffs@.len() <= 32,
        shift <= 15,
        forall|k: int| 0 <= k < coeffs@.len() ==> -0x8000 <= #[trigger] coeffs@[k] <= 0x8000,
    ensures
        final(buf)@ == lpc_restore(coeffs@, shift as nat, old(buf)@, old(buf)@.len()),
{
    let n = buf.len();
    let order = if coeffs.len() < n {
        coeffs.len()
    } else {
        n
    };
    let ghost res = buf@;
    proof {
        reveal_with_fuel(lpc_restore, 1);
        assert(lpc_restore(coeffs@, shift as nat, res, 0) =~= res.take(0));
    }
    let mut i: usize = 0;
    while i < order
        invariant
            order <= coeffs@.len(),
            order == coeffs@.len() || order == n,
            order <= n,
            n == buf@.len(),
            buf@ == res,
            i <= order,
            lpc_restore(coeffs@, shift as nat, res, i as nat) =~= res.take(i as int),
        decreases order - i,
    {
        proof {
            reveal_with_fuel(lpc_restore, 1);
            lemma_lpc_restore_len(coeffs@, shift as nat, res, i as nat);
            assert(res.take(i + 1) =~= res.take(i as int).push(res[i as int]));
        }
        i = i + 1;
    }
    if order < coeffs.len() {
        assert(buf@ =~= buf@.take(n as int));
        return;
    }
    while i < n
        invariant
            order == coeffs@.len(),
            order <= 32,
            order <= i <= n,
            n == buf@.len(),
            n == res.len(),
            shift <= 15,
            forall|k: int| 0 <= k < order ==> -0x8000 <= #[trigger] coeffs@[k] <= 0x8000,
            buf@.take(i as int) =~= lpc_restore(coeffs@, shift as nat, res, i as nat),
            forall|k: int| i <= k < n ==> #[trigger] buf@[k] == res[k],
        decreases n - i,
    {
        let mut acc: i64 = 0;
        let mut j: usize = 0;
        while j < order
            invariant
                order == coeffs@.len(),
                order <= 32,
                order <= i < n,
                n == buf@.len(),
                j <= order,
                forall|k: int| 0 <= k < order ==> -0x8000 <= #[trigger] coeffs@[k] <= 0x8000,
                acc == prediction_sum(coeffs@, buf@.take(i as int), i as int, j as nat),
                -(j as int) * 0x4000_0000_0000 <= acc <= (j as int) * 0x4000_0000_0000,
            decreases order - j,
        {
            let c = coeffs[j];
            let s = buf[i - j - 1];
            proof {
                assert(buf@.take(i as int)[i - (j + 1)] == s);
                assert(-0x4000_0000_0000 <= c * s <= 0x4000_0000_0000) by (nonlinear_arith)
                    requires
                        -0x8000 <= c <= 0x8000,
                        -0x8000_0000 <= s <= 0x7fff_ffff,
                ;
            }
            acc = acc + (c as i64) * (s as i64);
            j = j + 1;
        }
        let predicted = floor_shr(acc, shift);
        proof {
            lemma2_to64();
            vstd::arithmetic::power2::lemma_pow2_pos(shift as nat);
            lemma_floor_div_bound(acc as int, pow2(shift as nat) as int, 0x8_0000_0000_0000);
        }
        let v = wrap_to_i32(buf[i] as i64 + predicted);
        proof {
            reveal_with_fuel(lpc_restore, 1);
            let prev = lpc_restore(coeffs@, shift as nat, res, i as nat);
            lemma_lpc_restore_len(coeffs@, shift as nat, res, i as nat);
            assert(buf@.take(i as int) =~= prev);
        }
        buf[i] = v;
        proof {
            reveal_with_fuel(lpc_restore, 1);
            assert(buf@.take(i + 1) =~= lpc_restore(coeffs@, shift as nat, res, (i + 1) as nat));
        }
        i = i + 1;
    }
    assert(buf@ =~= buf@.take(n as int));
}

/// The coefficients of the fixed predictor of the given order, the first applying to the
/// previous sample.
pub open spec fn fixed_coeffs(order: nat) -> Seq<i32> {
    if order == 1 {
        seq![1i32]
    } else if order == 2 {
        seq![2i32, -1i32]
    } else if order == 3 {
        seq![3i32, -3i32, 1i32]
    } else if order == 4 {
        seq![4i32, -6i32, 4i32, -1i32]
    } else {
        seq![]
    }
}

/// Runs the fixed predictor of the given order over `buf`, whose first `order` samples are
/// warm-up samples and whose remaining samples are residuals.
fn fixed_predict(order: u32, buf: &mut [i32]) -> (r: Result<(), Error>)
    requires
        order <= 4,
    ensures
        r is Ok,
        final(buf)@ == lpc_restore(fixed_coeffs(order as nat), 0, old(buf)@, old(buf)@.len()),
{
    let coeffs: Vec<i32> = if order == 1 {
        vec![1]
    } else if order == 2 {
        vec![2, -1]
    } else if order == 3 {
        vec![3, -3, 1]
    } else if order == 4 {
        vec![4, -6, 4, -1]
    } else {
        Vec::new()
    };
    assert(coeffs@ =~= fixed_coeffs(order as nat));
    lpc_predict(coeffs.as_slice(), 0, buf);
    Ok(())
}

/// Shifts every sample left by `shift` bits (taken modulo 32), wrapping as two's complement.
pub(crate) fn samples_shl(shift: u32, buf: &mut [i32])
    ensures
        final(buf)@ == shifted_samples(old(buf)@, shift as nat),
{
    if shift > 0 {
        let k = shift % 32;
        let factor = pow2_u64(k);
        let n = buf.len();
        let mut i: usize = 0;
        while i < n
            invariant
                n == buf@.len(),
                n == old(buf)@.len(),
                i <= n,
                k == shift % 32,
                factor == pow2(k as nat),
                forall|j: int|
                    0 <= j < i ==> #[trigger] buf@[j] == wrap_i32(old(buf)@[j] * pow2(k as nat)),
                forall|j: int| i <= j < n ==> #[trigger] buf@[j] == old(buf)@[j],
            decreases n - i,
        {
            let x = buf[i];
            proof {
                lemma2_to64();
                vstd::arithmetic::power2::lemma_pow2_strictly_increases(k as nat, 32);
                assert(-0x4000_0000_0000_0000 <= x * factor <= 0x4000_0000_0000_0000)
                    by (nonlinear_arith)
                    requires
                        -0x8000_0000 <= x < 0x8000_0000,
                        0 < factor <= 0x8000_0000,
                ;
            }
            buf[i] = wrap_to_i32(x as i64 * factor as i64);
            i = i + 1;
        }
        assert(buf@ =~= shifted_samples(old(buf)@, shift as nat));
    } else {
        proof {
            lemma2_to64();
            assert forall|j: int| 0 <= j < buf@.len() implies #[trigger] buf@[j] == wrap_i32(
                buf@[j] * pow2(0),
            ) by {
                lemma_wrap_i32(buf@[j] as int);
            }
        }
        assert(buf@ =~= shifted_samples(old(buf)@, shift as nat));
    }
}

/// Every sample shifted left by `shift` bits (taken modulo 32), wrapping as two's complement.
pub open spec fn shifted_samples(s: Seq<i32>, shift: nat) -> Seq<i32> {
    Seq::new(s.len(), |j: int| wrap_i32(s[j] * pow2(shift % 32)) as i32)
}

/// The kind of a subframe, with the predictor order where there is one.
#[derive(Copy, Clone, Debug, PartialEq, Eq, Structural)]
pub enum SubFrameType {
    Constant,
    Verbatim,
    FixedLinear(u32),
    Linear(u32),
}

/// The subframe kind coded by the 6-bit type field `t`.
pub open spec fn subframe_kind(t: nat) -> Result<SubFrameType, Error> {
    if t == 0 {
        Ok(SubFrameType::Constant)
    } else if t == 1 {
        Ok(SubFrameType::Verbatim)
    } else if 8 <= t <= 15 {
        if t % 8 > 4 {
            Err(Error::DecodeError("Fixed predictor orders of greater than 4 are invalid."))
        } else {
            Ok(SubFrameType::FixedLinear((t % 8) as u32))
        }
    } else if 32 <= t <= 63 {
        Ok(SubFrameType::Linear((t % 32 + 1) as u32))
    } else {
        Err(Error::DecodeError("Subframe type set to reserved value."))
    }
}

/// `n` samples of `bps` bits restored by a linear predictor with `order` coefficients read at bit
/// `pos`: the warm-up samples, the coefficient precision and shift, the coefficients, then the
/// residual.
pub open spec fn linear_body(d: Seq<u8>, pos: int, order: nat, bps: nat, n: nat) -> Result<
    (Seq<i32>, int),
    Error,
> {
    match escaped_residuals(d, pos, bps, order) {
        None => Err(eof()),
        Some((warm, p)) => if p + 4 > 8 * d.len() {
            Err(eof())
        } else if bits_val(d, p, 4) + 1 > 15 {
            Err(Error::DecodeError("QLP precision set to reserved value."))
        } else if p + 9 > 8 * d.len() {
            Err(eof())
        } else if sign_extend(bits_val(d, p + 4, 5) as int, 5) < 0 {
            Err(Error::Unsupported("LPC shifts less than 0 are not supported."))
        } else {
            let precision = bits_val(d, p, 4) + 1;
            let shift = sign_extend(bits_val(d, p + 4, 5) as int, 5);
            match escaped_residuals(d, p + 9, precision, order) {
                None => Err(eof()),
                Some((coeffs, p2)) => match residual(d, p2, order, n) {
                    Err(e) => Err(e),
                    Ok((res, p3)) => Ok((lpc_restore(coeffs, shift as nat, warm + res, n), p3)),
                },
            }
        },
    }
}

/// The `n` samples of `bps` bits of a subframe body of the given kind at bit `pos`, and the bit
/// position after them.
pub open spec fn subframe_body(d: Seq<u8>, pos: int, kind: SubFrameType, bps: nat, n: nat) -> Result<
    (Seq<i32>, int),
    Error,
> {
    match kind {
        SubFrameType::Constant => if pos + bps > 8 * d.len() {
            Err(eof())
        } else {
            Ok(
                (
                    Seq::new(n, |j: int| sign_extend(bits_val(d, pos, bps) as int, bps) as i32),
                    pos + bps,
                ),
            )
        },
        SubFrameType::Verbatim => match escaped_residuals(d, pos, bps, n) {
            None => Err(eof()),
            Some(x) => Ok(x),
        },
        SubFrameType::FixedLinear(order) => if order > n {
            Err(Error::DecodeError("Predictor order exceeds the block size."))
        } else {
            match escaped_residuals(d, pos, bps, order as nat) {
                None => Err(eof()),
                Some((warm, p)) => match residual(d, p, order as nat, n) {
                    Err(e) => Err(e),
                    Ok((res, p2)) => Ok(
                        (lpc_restore(fixed_coeffs(order as nat), 0, warm + res, n), p2),
                    ),
                },
            }
        },
        SubFrameType::Linear(order) => if order > n {
            Err(Error::DecodeError("Predictor order exceeds the block size."))
        } else {
            linear_body(d, pos, order as nat, bps, n)
        },
    }
}

/// A subframe of `n` samples at bit `pos` of a frame whose samples have `frame_bps` bits: its
/// samples and the bit position after it.
///
/// A subframe starts with a zero bit, a 6-bit type and a flag for wasted bits. When the flag is
/// set, a unary count follows: the samples were coded with that many bits (plus one) fewer and
/// are shifted back up after decoding.
#[verifier::opaque]
pub open spec fn subframe(d: Seq<u8>, pos: int, frame_bps: nat, n: nat) -> Result<
    (Seq<i32>, int),
    Error,
> {
    if pos + 1 > 8 * d.len() {
        Err(eof())
    } else if bit_at(d, pos) == 1 {
        Err(Error::DecodeError("Subframe padding is not 0."))
    } else if pos + 7 > 8 * d.len() {
        Err(eof())
    } else {
        match subframe_kind(bits_val(d, pos + 1, 6)) {
            Err(e) => Err(e),
            Ok(kind) => if pos + 8 > 8 * d.len() {
                Err(eof())
            } else if bit_at(d, pos + 7) == 1 && first_one(d, pos + 8) >= 8 * d.len() {
                Err(eof())
            } else {
                let (dropped, p) = if bit_at(d, pos + 7) == 1 {
                    (
                        (first_one(d, pos + 8) - (pos + 8)) % 0x1_0000_0000 + 1,
                        first_one(d, pos + 8) + 1,
                    )
                } else {
                    (0, pos + 8)
                };
                if dropped >= frame_bps {
                    Err(
                        Error::DecodeError(
                            "Subframe wasted bits per sample exceed the bits per sample.",
                        ),
                    )
                } else if frame_bps - dropped > 32 {
                    Err(Error::DecodeError("Subframe bits per sample exceed 32."))
                } else {
                    match subframe_body(d, p, kind, (frame_bps - dropped) as nat, n) {
                        Err(e) => Err(e),
                        Ok((s, p2)) => Ok((shifted_samples(s, dropped as nat), p2)),
                    }
                }
            },
        }
    }
}

/// Whether a decoding step that returned `r` and left the stream at `bs` and the samples at `buf`
/// did what `expected` says: on success the samples and the bit position it gives, on failure
/// its error.
pub open spec fn decode_outcome<'a>(
    r: Result<(), Error>,
    expected: Result<(Seq<i32>, int), Error>,
    bs: BitStreamLtr<'a>,
    buf: Seq<i32>,
) -> bool {
    match expected {
        Ok((s, p)) => r is Ok && bs.wf() && bs.bit_pos() == p && buf == s,
        Err(e) => r == Err::<(), Error>(e),
    }
}

/// A sign extended `w`-bit value lies within `2^w` of zero.
proof fn lemma_sign_extend_bound(value: int, w: nat)
    ensures
        -pow2(w) <= sign_extend(value, w) < pow2(w),
{
    vstd::arithmetic::power2::lemma_pow2_pos(w);
    vstd::arithmetic::div_mod::lemma_mod_bound(value, pow2(w) as int);
}

/// Decodes a constant subframe: one sample repeated for the whole block.
fn decode_constant(bs: &mut BitStreamLtr, bps: u32, buf: &mut [i32]) -> (r: Result<(), Error>)
    requires
        old(bs).wf(),
        1 <= bps <= 32,
    ensures
        final(bs).data() == old(bs).data(),
        final(buf)@.len() == old(buf)@.len(),
        decode_outcome(
            r,
            subframe_body(
                old(bs).data(),
                old(bs).bit_pos(),
                SubFrameType::Constant,
                bps as nat,
                old(buf)@.len(),
            ),
            *final(bs),
            final(buf)@,
        ),
{
    let const_sample = sign_extend_leq32_to_i32(bs.read_bits_leq32(bps)?, bps);
    let n = buf.len();
    let mut i: usize = 0;
    while i < n
        invariant
            n == buf@.len(),
            n == old(buf)@.len(),
            i <= n,
            forall|j: int| 0 <= j < i ==> #[trigger] buf@[j] == const_sample,
        decreases n - i,
    {
        buf[i] = const_sample;
        i = i + 1;
    }
    proof {
        let expected = subframe_body(
            old(bs).data(),
            old(bs).bit_pos(),
            SubFrameType::Constant,
            bps as nat,
            n as nat,
        );
        assert(buf@ =~= expected->Ok_0.0);
    }
    Ok(())
}

/// Decodes a subframe coded with the fixed predictor of the given order.
#[verifier::rlimit(80)]
fn decode_fixed_linear(bs: &mut BitStreamLtr, bps: u32, order: u32, buf: &mut [i32]) -> (r: Result<
    (),
    Error,
>)
    requires
        old(bs).wf(),
        1 <= bps <= 32,
        order <= 4,
        old(buf)@.len() >= 1,
    ensures
        final(bs).data() == old(bs).data(),
        final(buf)@.len() == old(buf)@.len(),
        decode_outcome(
            r,
            subframe_body(
                old(bs).data(),
                old(bs).bit_pos(),
                SubFrameType::FixedLinear(order),
                bps as nat,
                old(buf)@.len(),
            ),
            *final(bs),
            final(buf)@,
        ),
{
    let ghost d = bs.data();
    let ghost b0 = buf@;
    let n = buf.len();
    if order as usize > n {
        return decode_error("Predictor order exceeds the block size.");
    }
    // The first `order` samples are encoded verbatim to warm-up the predictor.
    decode_verbatim(bs, bps, buf, 0, order as usize)?;
    let ghost warm = buf@.take(order as int);
    let ghost p1 = bs.bit_pos();
    proof {
        let ex = escaped_residuals(d, old(bs).bit_pos(), bps as nat, order as nat).unwrap();
        assert(buf@.len() == ex.0.len() + (n - order));
        assert(warm =~= ex.0);
    }
    // Decode the residuals for the predicted samples.
    decode_residual(bs, order, buf)?;
    proof {
        let res = residual(d, p1, order as nat, n as nat)->Ok_0.0;
        assert(buf@ =~= warm + res);
    }
    // Run the fixed predictor (appends to residuals).
    let ghost before = buf@;
    let r = fixed_predict(order, buf);
    proof {
        lemma_lpc_restore_len(fixed_coeffs(order as nat), 0, before, n as nat);
    }
    r
}

/// Decodes a subframe coded with a linear predictor of the given order.
#[verifier::rlimit(80)]
fn decode_linear(bs: &mut BitStreamLtr, bps: u32, order: u32, buf: &mut [i32]) -> (r: Result<
    (),
    Error,
>)
    requires
        old(bs).wf(),
        1 <= bps <= 32,
        1 <= order <= 32,
        old(buf)@.len() >= 1,
    ensures
        final(bs).data() == old(bs).data(),
        final(buf)@.len() == old(buf)@.len(),
        decode_outcome(
            r,
            subframe_body(
                old(bs).data(),
                old(bs).bit_pos(),
                SubFrameType::Linear(order),
                bps as nat,
                old(buf)@.len(),
            ),
            *final(bs),
            final(buf)@,
        ),
{
    let ghost d = bs.data();
    let ghost p0 = bs.bit_pos();
    let n = buf.len();
    if order as usize > n {
        return decode_error("Predictor order exceeds the block size.");
    }
    // The first `order` samples are encoded verbatim to warm-up the predictor.
    decode_verbatim(bs, bps, buf, 0, order as usize)?;
    let ghost warm = buf@.take(order as int);
    let ghost p1 = bs.bit_pos();
    proof {
        let ex = escaped_residuals(d, p0, bps as nat, order as nat).unwrap();
        assert(buf@.len() == ex.0.len() + (n - order));
        assert(warm =~= ex.0);
        lemma2_to64();
        lemma_bits_val_bound(d, p1, 4);
        lemma_bits_val_bound(d, p1 + 4, 5);
    }
    // Quantized linear predictor (QLP) coefficients precision in bits.
    let qlp_precision = bs.read_bits_leq32(4)? + 1;
    if qlp_precision > 15 {
        return decode_error("QLP precision set to reserved value.");
    }
    // QLP coefficients bit shift [-16, 15].
    let qlp_coeff_shift = sign_extend_leq32_to_i32(bs.read_bits_leq32(5)?, 5);
    if qlp_coeff_shift < 0 {
        return unsupported_error("LPC shifts less than 0 are not supported.");
    }
    proof {
        lemma_sign_extend_bound(bits_val(d, p1 + 4, 5) as int, 5);
    }
    // The coefficients, the first applying to the previous sample.
    let ghost p2 = bs.bit_pos();
    assert(p2 == p1 + 9);
    assert(linear_body(d, p0, order as nat, bps as nat, n as nat) == match escaped_residuals(
        d,
        p2,
        qlp_precision as nat,
        order as nat,
    ) {
        None => Err(eof()),
        Some((coeffs, p3)) => match residual(d, p3, order as nat, n as nat) {
            Err(e) => Err(e),
            Ok((res, p4)) => Ok(
                (lpc_restore(coeffs, qlp_coeff_shift as nat, warm + res, n as nat), p4),
            ),
        },
    });
    let mut coeffs: Vec<i32> = Vec::new();
    let mut j: u32 = 0;
    while j < order
        invariant
            bs.wf(),
            bs.data() == d,
            d == old(bs).data(),
            p0 == old(bs).bit_pos(),
            buf@.len() == old(buf)@.len(),
            n == buf@.len(),
            j <= order,
            order as nat <= n,
            1 <= qlp_precision <= 15,
            linear_body(d, p0, order as nat, bps as nat, n as nat) == match escaped_residuals(
                d,
                p2,
                qlp_precision as nat,
                order as nat,
            ) {
                None => Err(eof()),
                Some((coeffs, p3)) => match residual(d, p3, order as nat, n as nat) {
                    Err(e) => Err(e),
                    Ok((res, p4)) => Ok(
                        (lpc_restore(coeffs, qlp_coeff_shift as nat, warm + res, n as nat), p4),
                    ),
                },
            },
            ({
                let res = escaped_residuals(d, p2, qlp_precision as nat, j as nat);
                &&& res is Some
                &&& res.unwrap().1 == bs.bit_pos()
                &&& coeffs@ == res.unwrap().0
            }),
            coeffs@.len() == j,
            forall|k: int| 0 <= k < coeffs@.len() ==> -0x8000 <= #[trigger] coeffs@[k] <= 0x8000,
        decreases order - j,
    {
        let c = match read_escaped_residual(bs, qlp_precision) {
            Ok(c) => c,
            Err(e) => {
                proof {
                    lemma_escaped_none_upto(d, p2, qlp_precision as nat, (j + 1) as nat, order as nat);
                }
                return Err(e);
            },
        };
        proof {
            let prev = escaped_residuals(d, p2, qlp_precision as nat, j as nat).unwrap();
            lemma_sign_extend_bound(bits_val(d, prev.1, qlp_precision as nat) as int, qlp_precision as nat);
            lemma2_to64();
            if qlp_precision < 15 {
                vstd::arithmetic::power2::lemma_pow2_strictly_increases(qlp_precision as nat, 15);
            }
        }
        coeffs.push(c);
        j = j + 1;
    }
    let ghost p3 = bs.bit_pos();
    decode_residual(bs, order, buf)?;
    proof {
        let res = residual(d, p3, order as nat, n as nat)->Ok_0.0;
        assert(buf@ =~= warm + res);
    }
    let ghost before = buf@;
    lpc_predict(coeffs.as_slice(), qlp_coeff_shift as u32, buf);
    proof {
        lemma_lpc_restore_len(coeffs@, qlp_coeff_shift as nat, before, n as nat);
    }
    Ok(())
}

proof fn lemma_escaped_none_upto(d: Seq<u8>, pos: int, w: nat, n: nat, m: nat)
    requires
        n <= m,
        escaped_residuals(d, pos, w, n) is None,
    ensures
        escaped_residuals(d, pos, w, m) is None,
    decreases m - n,
{
    if n < m {
        lemma_escaped_none_upto(d, pos, w, n, (m - 1) as nat);
    }
}

/// Decodes one subframe of the block in `buf`, for a frame whose samples have `frame_bps` bits.
pub fn read_subframe(bs: &mut BitStreamLtr, frame_bps: u32, buf: &mut [i32]) -> (r: Result<
    (),
    Error,
>)
    requires
        old(bs).wf(),
        old(buf)@.len() >= 1,
    ensures
        final(bs).data() == old(bs).data(),
        final(buf)@.len() == old(buf)@.len(),
        decode_outcome(
            r,
            subframe(old(bs).data(), old(bs).bit_pos(), frame_bps as nat, old(buf)@.len()),
            *final(bs),
            final(buf)@,
        ),
{
    let ghost d = bs.data();
    let ghost p0 = bs.bit_pos();
    proof {
        lemma2_to64();
        reveal(subframe);
    }
    // First sub-frame bit must always 0.
    if bs.read_bit()? {
        return decode_error("Subframe padding is not 0.");
    }
    // Next 6 bits designate the sub-frame type.
    let subframe_type_enc = bs.read_bits_leq32(6)?;
    proof {
        lemma_bits_val_bound(d, p0 + 1, 6);
    }
    let subframe_type = if subframe_type_enc == 0 {
        SubFrameType::Constant
    } else if subframe_type_enc == 1 {
        SubFrameType::Verbatim
    } else if 8 <= subframe_type_enc && subframe_type_enc <= 15 {
        let order = subframe_type_enc % 8;
        // The fixed predictor only supports orders between 0 and 4.
        if order > 4 {
            return decode_error("Fixed predictor orders of greater than 4 are invalid.");
        }
        SubFrameType::FixedLinear(order)
    } else if 32 <= subframe_type_enc && subframe_type_enc <= 63 {
        SubFrameType::Linear(subframe_type_enc % 32 + 1)
    } else {
        return decode_error("Subframe type set to reserved value.");
    };
    // The wasted bits flag: when set, a unary count of the dropped low bits, less one, follows.
    let dropped_bps: u32 = if bs.read_bit()? {
        let count = bs.read_unary()?;
        if count as u64 + 1 >= frame_bps as u64 {
            return decode_error("Subframe wasted bits per sample exceed the bits per sample.");
        }
        count + 1
    } else {
        if frame_bps == 0 {
            return decode_error("Subframe wasted bits per sample exceed the bits per sample.");
        }
        0
    };
    let bps = frame_bps - dropped_bps;
    if bps > 32 {
        return decode_error("Subframe bits per sample exceed 32.");
    }
    let n = buf.len();
    match subframe_type {
        SubFrameType::Constant => decode_constant(bs, bps, buf)?,
        SubFrameType::Verbatim => {
            proof {
                assert(buf@.subrange(0, 0) =~= Seq::<i32>::empty());
                assert(buf@.subrange(n as int, n as int) =~= Seq::<i32>::empty());
            }
            decode_verbatim(bs, bps, buf, 0, n)?;
        },
        SubFrameType::FixedLinear(order) => decode_fixed_linear(bs, bps, order, buf)?,
        SubFrameType::Linear(order) => decode_linear(bs, bps, order, buf)?,
    }
    // Shift the samples to account for the dropped bits.
    samples_shl(dropped_bps, buf);
    Ok(())
}

/// Reading a subframe only moves forward.
pub proof fn lemma_subframe_end(d: Seq<u8>, pos: int, frame_bps: nat, n: nat)
    requires
        0 <= pos,
    ensures
        subframe(d, pos, frame_bps, n) matches Ok((_, q)) ==> q >= pos,
{
    reveal(subframe);
    if pos + 8 <= 8 * d.len() {
        let flag = bit_at(d, pos + 7) == 1;
        if flag {
            crate::flac::residual::lemma_first_one_ge(d, pos + 8);
        }
        let p = if flag { first_one(d, pos + 8) + 1 } else { pos + 8 };
        if let Ok(kind) = subframe_kind(bits_val(d, pos + 1, 6)) {
            let dropped: int = if flag { (first_one(d, pos + 8) - (pos + 8)) % 0x1_0000_0000 + 1 } else { 0 };
            let bps = (frame_bps - dropped) as nat;
            lemma_subframe_body_end(d, p, kind, bps, n);
        }
    }
}

/// Reading a subframe body only moves forward.
proof fn lemma_subframe_body_end(d: Seq<u8>, pos: int, kind: SubFrameType, bps: nat, n: nat)
    requires
        0 <= pos,
    ensures
        subframe_body(d, pos, kind, bps, n) matches Ok((_, q)) ==> q >= pos,
{
    match kind {
        SubFrameType::Constant => {},
        SubFrameType::Verbatim => {
            crate::flac::residual::lemma_escaped_residuals_end(d, pos, bps, n);
        },
        SubFrameType::FixedLinear(order) => {
            crate::flac::residual::lemma_escaped_residuals_end(d, pos, bps, order as nat);
            if let Some((_, p)) = escaped_residuals(d, pos, bps, order as nat) {
                crate::flac::residual::lemma_residual_end(d, p, order as nat, n);
            }
        },
        SubFrameType::Linear(order) => {
            crate::flac::residual::lemma_escaped_residuals_end(d, pos, bps, order as nat);
            if let Some((_, p)) = escaped_residuals(d, pos, bps, order as nat) {
                let precision = bits_val(d, p, 4) + 1;
                crate::flac::residual::lemma_escaped_residuals_end(d, p + 9, precision, order as nat);
                if let Some((_, p2)) = escaped_residuals(d, p + 9, precision, order as nat) {
                    crate::flac::residual::lemma_residual_end(d, p2, order as nat, n);
                }
            }
        },
    }
}

} // verus!
