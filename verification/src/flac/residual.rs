//! Decoding of the partitioned Rice coded residual of a FLAC subframe.

use vstd::prelude::*;
use vstd::arithmetic::power2::{pow2, lemma2_to64, lemma_pow2_pos};
use crate::errors::{Error, decode_error};
use crate::io::{BitStreamLtr, eof, pow2_u64};
use crate::io::bits_model::{bits_val, first_one, lemma_bits_val_bound};
use crate::util::bits::{sign_extend, sign_extend_leq32_to_i32};
use crate::flac::subframe::{rice_signed, rice_signed_to_i32};

verus! {

/// The word formed by a unary quotient `q` followed by `k` remainder bits `r`, in 32 bits.
pub open spec fn rice_word(q: int, k: nat, r: nat) -> u32 {
    ((q * pow2(k) + r) % 0x1_0000_0000) as u32
}

/// One Rice coded residual with parameter `k` at bit `p`: a unary quotient, then `k` bits of
/// remainder. The value and the bit position after it, or `None` if the data ends first.
pub open spec fn rice_step(d: Seq<u8>, p: int, k: nat) -> Option<(i32, int)> {
    let one = first_one(d, p);
    if one + 1 + k > 8 * d.len() {
        None
    } else {
        let q = (one - p) % 0x1_0000_0000;
        Some((rice_signed(rice_word(q, k, bits_val(d, one + 1, k))) as i32, one + 1 + k))
    }
}

/// One residual stored verbatim as a `w`-bit two's complement integer at bit `p`.
pub open spec fn escaped_step(d: Seq<u8>, p: int, w: nat) -> Option<(i32, int)> {
    if p + w > 8 * d.len() {
        None
    } else {
        Some((sign_extend(bits_val(d, p, w) as int, w) as i32, p + w))
    }
}

/// `n` Rice coded residuals with parameter `k` starting at bit `pos` of `d`: the values and the
/// bit position after them, or `None` if the data ends first.
pub open spec fn rice_residuals(d: Seq<u8>, pos: int, k: nat, n: nat) -> Option<(Seq<i32>, int)>
    decreases n,
{
    if n == 0 {
        Some((seq![], pos))
    } else {
        match rice_residuals(d, pos, k, (n - 1) as nat) {
            None => None,
            Some((s, p)) => match rice_step(d, p, k) {
                None => None,
                Some((v, p2)) => Some((s.push(v), p2)),
            },
        }
    }
}

/// `n` residuals stored verbatim as `w`-bit two's complement integers starting at bit `pos`.
pub open spec fn escaped_residuals(d: Seq<u8>, pos: int, w: nat, n: nat) -> Option<(Seq<i32>, int)>
    decreases n,
{
    if n == 0 {
        Some((seq![], pos))
    } else {
        match escaped_residuals(d, pos, w, (n - 1) as nat) {
            None => None,
            Some((s, p)) => match escaped_step(d, p, w) {
                None => None,
                Some((v, p2)) => Some((s.push(v), p2)),
            },
        }
    }
}

/// One residual partition of `n` samples whose parameter is `pw` bits wide. A parameter of all
/// ones escapes to residuals stored verbatim, with their width in the next 5 bits.
pub open spec fn rice_partition(d: Seq<u8>, pos: int, pw: nat, n: nat) -> Option<(Seq<i32>, int)> {
    if pos + pw > 8 * d.len() {
        None
    } else {
        let param = bits_val(d, pos, pw);
        if param < pow2(pw) - 1 {
            rice_residuals(d, pos + pw, param, n)
        } else if pos + pw + 5 > 8 * d.len() {
            None
        } else {
            escaped_residuals(d, pos + pw + 5, bits_val(d, pos + pw, 5), n)
        }
    }
}

/// The first `count` partitions of a residual: the first holds `first_n` samples, every other
/// `part_len` samples.
pub open spec fn partitions(
    d: Seq<u8>,
    pos: int,
    pw: nat,
    first_n: nat,
    part_len: nat,
    count: nat,
) -> Option<(Seq<i32>, int)>
    decreases count,
{
    if count == 0 {
        Some((seq![], pos))
    } else {
        match partitions(d, pos, pw, first_n, part_len, (count - 1) as nat) {
            None => None,
            Some((s, p)) => match rice_partition(
                d,
                p,
                pw,
                if count == 1 {
                    first_n
                } else {
                    part_len
                },
            ) {
                None => None,
                Some((t, p2)) => Some((s + t, p2)),
            },
        }
    }
}

/// The residual of a block of `len` samples whose first `prelude` samples are warm-up samples:
/// the residual values of the remaining samples and the bit position after them.
#[verifier::opaque]
pub open spec fn residual(d: Seq<u8>, pos: int, prelude: nat, len: nat) -> Result<
    (Seq<i32>, int),
    Error,
> {
    if pos + 2 > 8 * d.len() {
        Err(eof())
    } else if bits_val(d, pos, 2) >= 2 {
        Err(Error::DecodeError("Residual method set to reserved value."))
    } else if pos + 6 > 8 * d.len() {
        Err(eof())
    } else {
        let pw: nat = if bits_val(d, pos, 2) == 0 {
            4
        } else {
            5
        };
        let order = bits_val(d, pos + 2, 4);
        let part_len = len / pow2(order);
        if prelude > part_len {
            Err(Error::DecodeError("Residual partition too small for given predictor order."))
        } else if pow2(order) * part_len != len {
            Err(Error::DecodeError("Block size is not same as encoded residual."))
        } else {
            match partitions(d, pos + 6, pw, (part_len - prelude) as nat, part_len, pow2(order)) {
                None => Err(eof()),
                Some(x) => Ok(x),
            }
        }
    }
}

proof fn lemma_rice_residuals_none(d: Seq<u8>, pos: int, k: nat, n: nat, m: nat)
    requires
        n <= m,
        rice_residuals(d, pos, k, n) is None,
    ensures
        rice_residuals(d, pos, k, m) is None,
    decreases m - n,
{
    if n < m {
        lemma_rice_residuals_none(d, pos, k, n, (m - 1) as nat);
    }
}

proof fn lemma_escaped_residuals_none(d: Seq<u8>, pos: int, w: nat, n: nat, m: nat)
    requires
        n <= m,
        escaped_residuals(d, pos, w, n) is None,
    ensures
        escaped_residuals(d, pos, w, m) is None,
    decreases m - n,
{
    if n < m {
        lemma_escaped_residuals_none(d, pos, w, n, (m - 1) as nat);
    }
}

proof fn lemma_partitions_none(
    d: Seq<u8>,
    pos: int,
    pw: nat,
    first_n: nat,
    part_len: nat,
    n: nat,
    m: nat,
)
    requires
        n <= m,
        partitions(d, pos, pw, first_n, part_len, n) is None,
    ensures
        partitions(d, pos, pw, first_n, part_len, m) is None,
    decreases m - n,
{
    if n < m {
        lemma_partitions_none(d, pos, pw, first_n, part_len, n, (m - 1) as nat);
    }
}

/// Reads one Rice coded residual with parameter `k`, where `pow` is `2^k`.
fn read_rice_residual(bs: &mut BitStreamLtr, k: u32, pow: u64) -> (r: Result<i32, Error>)
    requires
        old(bs).wf(),
        k < 31,
        pow == pow2(k as nat),
    ensures
        final(bs).data() == old(bs).data(),
        r is Ok <==> rice_step(old(bs).data(), old(bs).bit_pos(), k as nat) is Some,
        r matches Err(e) ==> e == eof(),
        r matches Ok(v) ==> {
            let (v2, p) = rice_step(old(bs).data(), old(bs).bit_pos(), k as nat).unwrap();
            &&& v == v2
            &&& final(bs).wf()
            &&& final(bs).bit_pos() == p
        },
{
    let q = bs.read_unary()?;
    let rem = bs.read_bits_leq32(k)?;
    proof {
        vstd::arithmetic::power2::lemma_pow2_strictly_increases(k as nat, 31);
        lemma2_to64();
        vstd::arithmetic::mul::lemma_mul_upper_bound(q as int, 0xffff_ffff, pow as int, 0x8000_0000);
    }
    let word = ((q as u64 * pow + rem as u64) % 0x1_0000_0000) as u32;
    Ok(rice_signed_to_i32(word))
}

/// Reads one residual stored verbatim as a `w`-bit two's complement integer.
pub(crate) fn read_escaped_residual(bs: &mut BitStreamLtr, w: u32) -> (r: Result<i32, Error>)
    requires
        old(bs).wf(),
        w <= 32,
    ensures
        final(bs).data() == old(bs).data(),
        r is Ok <==> escaped_step(old(bs).data(), old(bs).bit_pos(), w as nat) is Some,
        r matches Err(e) ==> e == eof(),
        r matches Ok(v) ==> {
            let (v2, p) = escaped_step(old(bs).data(), old(bs).bit_pos(), w as nat).unwrap();
            &&& v == v2
            &&& final(bs).wf()
            &&& final(bs).bit_pos() == p
        },
{
    let raw = bs.read_bits_leq32(w)?;
    // A width of zero codes residuals that are all zero.
    if w == 0 {
        proof {
            lemma2_to64();
            assert(sign_extend(raw as int, 0) == 0);
        }
        Ok(0)
    } else {
        Ok(sign_extend_leq32_to_i32(raw, w))
    }
}

/// Decodes `end - start` samples stored verbatim as `w`-bit two's complement integers into
/// `buf[start..end]`.
pub fn decode_verbatim(bs: &mut BitStreamLtr, w: u32, buf: &mut [i32], start: usize, end: usize) -> (r:
    Result<(), Error>)
    requires
        old(bs).wf(),
        w <= 32,
        start <= end <= old(buf)@.len(),
    ensures
        final(bs).data() == old(bs).data(),
        final(buf)@.len() == old(buf)@.len(),
        ({
            let res = escaped_residuals(
                old(bs).data(),
                old(bs).bit_pos(),
                w as nat,
                (end - start) as nat,
            );
            &&& r is Ok <==> res is Some
            &&& r matches Err(e) ==> e == eof()
            &&& r is Ok ==> {
                &&& final(bs).wf()
                &&& final(bs).bit_pos() == res.unwrap().1
                &&& final(buf)@ == old(buf)@.subrange(0, start as int) + res.unwrap().0
                    + old(buf)@.subrange(end as int, old(buf)@.len() as int)
            }
        }),
{
    let ghost d = bs.data();
    let ghost p0 = bs.bit_pos();
    let ghost b0 = buf@;
    let mut i: usize = start;
    while i < end
        invariant
            bs.wf(),
            bs.data() == d,
            d == old(bs).data(),
            b0 == old(buf)@,
            p0 == old(bs).bit_pos(),
            start <= i <= end,
            end <= buf@.len(),
            buf@.len() == b0.len(),
            w <= 32,
            ({
                let res = escaped_residuals(d, p0, w as nat, (i - start) as nat);
                &&& res is Some
                &&& res.unwrap().1 == bs.bit_pos()
                &&& buf@ == b0.subrange(0, start as int) + res.unwrap().0 + b0.subrange(
                    i as int,
                    b0.len() as int,
                )
            }),
        decreases end - i,
    {
        let ghost next = escaped_residuals(d, p0, w as nat, (i - start + 1) as nat);
        let v = match read_escaped_residual(bs, w) {
            Ok(v) => v,
            Err(e) => {
                proof {
                    lemma_escaped_residuals_none(
                        d,
                        p0,
                        w as nat,
                        (i - start + 1) as nat,
                        (end - start) as nat,
                    );
                }
                return Err(e);
            },
        };
        buf[i] = v;
        proof {
            assert(buf@ =~= b0.subrange(0, start as int) + next.unwrap().0 + b0.subrange(
                i + 1,
                b0.len() as int,
            ));
        }
        i = i + 1;
    }
    Ok(())
}

/// Decodes one residual partition into `buf[start..end]`.
fn decode_rice_partition(
    bs: &mut BitStreamLtr,
    param_bit_width: u32,
    buf: &mut [i32],
    start: usize,
    end: usize,
) -> (r: Result<(), Error>)
    requires
        old(bs).wf(),
        param_bit_width == 4 || param_bit_width == 5,
        start <= end <= old(buf)@.len(),
    ensures
        final(bs).data() == old(bs).data(),
        final(buf)@.len() == old(buf)@.len(),
        r is Ok <==> rice_partition(
            old(bs).data(),
            old(bs).bit_pos(),
            param_bit_width as nat,
            (end - start) as nat,
        ) is Some,
        r matches Err(e) ==> e == eof(),
        r is Ok ==> {
            let (s, p) = rice_partition(
                old(bs).data(),
                old(bs).bit_pos(),
                param_bit_width as nat,
                (end - start) as nat,
            )->0;
            &&& final(bs).wf()
            &&& final(bs).bit_pos() == p
            &&& final(buf)@ == old(buf)@.subrange(0, start as int) + s + old(buf)@.subrange(
                end as int,
                old(buf)@.len() as int,
            )
        },
{
    let ghost d = bs.data();
    let ghost p0 = bs.bit_pos();
    let ghost b0 = buf@;
    proof {
        lemma2_to64();
    }
    let rice_param = bs.read_bits_leq32(param_bit_width)?;
    let escape: u32 = if param_bit_width == 4 {
        15
    } else {
        31
    };
    if rice_param < escape {
        let ghost k = rice_param as nat;
        let pow = pow2_u64(rice_param);
        let mut i: usize = start;
        while i < end
            invariant
                bs.wf(),
                bs.data() == d,
                d == old(bs).data(),
                b0 == old(buf)@,
                p0 == old(bs).bit_pos(),
                start <= i <= end,
                end <= buf@.len(),
                buf@.len() == b0.len(),
                rice_param < 31,
                pow == pow2(k),
                rice_partition(d, p0, param_bit_width as nat, (end - start) as nat)
                    == rice_residuals(d, p0 + param_bit_width, k, (end - start) as nat),
                k == rice_param,
                ({
                    let res = rice_residuals(d, p0 + param_bit_width, k, (i - start) as nat);
                    &&& res is Some
                    &&& res.unwrap().1 == bs.bit_pos()
                    &&& buf@ == b0.subrange(0, start as int) + res.unwrap().0 + b0.subrange(
                        i as int,
                        b0.len() as int,
                    )
                }),
            decreases end - i,
        {
            let ghost next = rice_residuals(d, p0 + param_bit_width, k, (i - start + 1) as nat);
            let v = match read_rice_residual(bs, rice_param, pow) {
                Ok(v) => v,
                Err(e) => {
                    proof {
                        lemma_rice_residuals_none(
                            d,
                            p0 + param_bit_width,
                            k,
                            (i - start + 1) as nat,
                            (end - start) as nat,
                        );
                    }
                    return Err(e);
                },
            };
            buf[i] = v;
            proof {
                assert(buf@ =~= b0.subrange(0, start as int) + next.unwrap().0 + b0.subrange(
                    i + 1,
                    b0.len() as int,
                ));
            }
            i = i + 1;
        }
        Ok(())
    } else {
        let residual_bits = bs.read_bits_leq32(5)?;
        proof {
            lemma_bits_val_bound(d, p0 + param_bit_width, 5);
        }
        decode_verbatim(bs, residual_bits, buf, start, end)
    }
}

/// Decodes `n_partitions` residual partitions of `part_len` samples each into `buf`, except that
/// the first partition holds only `part_len - prelude` samples, after the warm-up samples.
#[verifier::rlimit(40)]
fn decode_partitions(
    bs: &mut BitStreamLtr,
    param_bit_width: u32,
    buf: &mut [i32],
    prelude: usize,
    n_partitions: usize,
    part_len: usize,
) -> (r: Result<(), Error>)
    requires
        old(bs).wf(),
        param_bit_width == 4 || param_bit_width == 5,
        prelude <= part_len,
        n_partitions >= 1,
        n_partitions * part_len == old(buf)@.len(),
    ensures
        final(bs).data() == old(bs).data(),
        final(buf)@.len() == old(buf)@.len(),
        ({
            let res = partitions(
                old(bs).data(),
                old(bs).bit_pos(),
                param_bit_width as nat,
                (part_len - prelude) as nat,
                part_len as nat,
                n_partitions as nat,
            );
            &&& r is Ok <==> res is Some
            &&& r matches Err(e) ==> e == eof()
            &&& r is Ok ==> {
                &&& final(bs).wf()
                &&& final(bs).bit_pos() == res.unwrap().1
                &&& final(buf)@ == old(buf)@.take(prelude as int) + res.unwrap().0
            }
        }),
{
    let ghost d = bs.data();
    let ghost p0 = bs.bit_pos();
    let ghost b0 = buf@;
    let ghost pw = param_bit_width as nat;
    let ghost first_n = (part_len - prelude) as nat;
    let len = buf.len();
    proof {
        assert(part_len <= len) by (nonlinear_arith)
            requires
                n_partitions >= 1,
                n_partitions * part_len == len,
        ;
        assert(b0 =~= b0.take(prelude as int) + Seq::<i32>::empty() + b0.subrange(
            prelude as int,
            len as int,
        ));
    }
    let mut c: usize = 0;
    let mut off: usize = 0;
    while c < n_partitions
        invariant
            bs.wf(),
            bs.data() == d,
            d == old(bs).data(),
            b0 == old(buf)@,
            p0 == old(bs).bit_pos(),
            buf@.len() == b0.len(),
            len == b0.len(),
            pw == param_bit_width,
            param_bit_width == 4 || param_bit_width == 5,
            c <= n_partitions,
            n_partitions * part_len == len,
            off == c * part_len,
            prelude <= part_len,
            first_n == part_len - prelude,
            ({
                let res = partitions(d, p0, pw, first_n, part_len as nat, c as nat);
                let start = if c == 0 { prelude as int } else { off as int };
                &&& res is Some
                &&& res.unwrap().1 == bs.bit_pos()
                &&& buf@ == b0.take(prelude as int) + res.unwrap().0 + b0.subrange(start, len as int)
            }),
        decreases n_partitions - c,
    {
        proof {
            assert((c + 1) * part_len <= len) by (nonlinear_arith)
                requires
                    c + 1 <= n_partitions,
                    n_partitions * part_len == len,
            ;
            assert((c + 1) * part_len == off + part_len) by (nonlinear_arith)
                requires
                    off == c * part_len,
            ;
        }
        let start = if c == 0 {
            prelude
        } else {
            off
        };
        let end = off + part_len;
        let ghost before = buf@;
        let ghost prev = partitions(d, p0, pw, first_n, part_len as nat, c as nat);
        let res = decode_rice_partition(bs, param_bit_width, buf, start, end);
        if let Err(e) = res {
            proof {
                lemma_partitions_none(
                    d,
                    p0,
                    pw,
                    first_n,
                    part_len as nat,
                    (c + 1) as nat,
                    n_partitions as nat,
                );
            }
            return Err(e);
        }
        proof {
            let n_here: nat = if c == 0 { first_n } else { part_len as nat };
            assert(n_here == end - start);
            let t = rice_partition(d, prev.unwrap().1, pw, n_here).unwrap().0;
            assert(before.subrange(0, start as int) =~= b0.take(prelude as int) + prev.unwrap().0);
            assert(before.subrange(end as int, len as int) =~= b0.subrange(end as int, len as int));
            assert(buf@ =~= b0.take(prelude as int) + (prev.unwrap().0 + t) + b0.subrange(
                end as int,
                len as int,
            ));
        }
        c = c + 1;
        off = end;
    }
    proof {
        assert(b0.subrange(len as int, len as int) =~= Seq::<i32>::empty());
        let res = partitions(d, p0, pw, first_n, part_len as nat, c as nat);
        assert(buf@ =~= b0.take(prelude as int) + res.unwrap().0);
    }
    Ok(())
}

/// Decodes the residual of the subframe in `buf`, whose first `n_prelude_samples` samples are
/// warm-up samples and are left as they are.
pub fn decode_residual(bs: &mut BitStreamLtr, n_prelude_samples: u32, buf: &mut [i32]) -> (r: Result<
    (),
    Error,
>)
    requires
        old(bs).wf(),
        old(buf)@.len() >= 1,
    ensures
        final(bs).data() == old(bs).data(),
        final(buf)@.len() == old(buf)@.len(),
        r is Ok <==> residual(
            old(bs).data(),
            old(bs).bit_pos(),
            n_prelude_samples as nat,
            old(buf)@.len(),
        ) is Ok,
        r matches Err(e) ==> residual(
            old(bs).data(),
            old(bs).bit_pos(),
            n_prelude_samples as nat,
            old(buf)@.len(),
        ) == Err::<(Seq<i32>, int), Error>(e),
        r is Ok ==> {
            let (s, p) = residual(
                old(bs).data(),
                old(bs).bit_pos(),
                n_prelude_samples as nat,
                old(buf)@.len(),
            )->Ok_0;
            &&& final(bs).wf()
            &&& final(bs).bit_pos() == p
            &&& final(buf)@ == old(buf)@.take(n_prelude_samples as int) + s
        },
{
    let ghost d = bs.data();
    let ghost p0 = bs.bit_pos();
    proof {
        lemma2_to64();
        reveal(residual);
    }
    let method_enc = bs.read_bits_leq32(2)?;
    let param_bit_width: u32 = if method_enc == 0 {
        4
    } else if method_enc == 1 {
        5
    } else {
        return decode_error("Residual method set to reserved value.");
    };
    let order = bs.read_bits_leq32(4)?;
    proof {
        lemma_bits_val_bound(d, p0 + 2, 4);
        lemma_pow2_pos(order as nat);
        vstd::arithmetic::power2::lemma_pow2_strictly_increases(order as nat, 16);
    }
    let n_partitions = pow2_u64(order) as usize;
    let len = buf.len();
    let n_partition_samples = len / n_partitions;
    if n_prelude_samples as usize > n_partition_samples {
        return decode_error("Residual partition too small for given predictor order.");
    }
    proof {
        vstd::arithmetic::div_mod::lemma_fundamental_div_mod(len as int, n_partitions as int);
        vstd::arithmetic::div_mod::lemma_mod_bound(len as int, n_partitions as int);
        vstd::arithmetic::mul::lemma_mul_is_commutative(
            n_partitions as int,
            n_partition_samples as int,
        );
    }
    if n_partitions * n_partition_samples != len {
        return decode_error("Block size is not same as encoded residual.");
    }
    decode_partitions(
        bs,
        param_bit_width,
        buf,
        n_prelude_samples as usize,
        n_partitions,
        n_partition_samples,
    )
}

/// The first 1 bit at or after `p` is at or after `p`.
pub proof fn lemma_first_one_ge(d: Seq<u8>, p: int)
    requires
        0 <= p <= 8 * d.len(),
    ensures
        first_one(d, p) >= p,
    decreases 8 * d.len() - p,
{
    if p < 8 * d.len() && crate::io::bits_model::bit_at(d, p) != 1 {
        lemma_first_one_ge(d, p + 1);
    }
}

/// Reading residuals only moves forward.
pub proof fn lemma_rice_residuals_end(d: Seq<u8>, pos: int, k: nat, n: nat)
    requires
        0 <= pos,
    ensures
        rice_residuals(d, pos, k, n) matches Some((_, q)) ==> q >= pos,
    decreases n,
{
    if n > 0 {
        lemma_rice_residuals_end(d, pos, k, (n - 1) as nat);
        if let Some((_, p)) = rice_residuals(d, pos, k, (n - 1) as nat) {
            if p <= 8 * d.len() {
                lemma_first_one_ge(d, p);
            }
        }
    }
}

/// Reading residuals only moves forward.
pub proof fn lemma_escaped_residuals_end(d: Seq<u8>, pos: int, w: nat, n: nat)
    ensures
        escaped_residuals(d, pos, w, n) matches Some((_, q)) ==> q >= pos,
    decreases n,
{
    if n > 0 {
        lemma_escaped_residuals_end(d, pos, w, (n - 1) as nat);
    }
}

/// Reading a partition only moves forward.
pub proof fn lemma_rice_partition_end(d: Seq<u8>, pos: int, pw: nat, n: nat)
    requires
        0 <= pos,
    ensures
        rice_partition(d, pos, pw, n) matches Some((_, q)) ==> q >= pos,
{
    lemma_rice_residuals_end(d, pos + pw, bits_val(d, pos, pw), n);
    lemma_escaped_residuals_end(d, pos + pw + 5, bits_val(d, pos + pw, 5), n);
}

/// Reading partitions only moves forward.
pub proof fn lemma_partitions_end(d: Seq<u8>, pos: int, pw: nat, first_n: nat, part_len: nat, count: nat)
    requires
        0 <= pos,
    ensures
        partitions(d, pos, pw, first_n, part_len, count) matches Some((_, q)) ==> q >= pos,
    decreases count,
{
    if count > 0 {
        lemma_partitions_end(d, pos, pw, first_n, part_len, (count - 1) as nat);
        if let Some((_, p)) = partitions(d, pos, pw, first_n, part_len, (count - 1) as nat) {
            lemma_rice_partition_end(d, p, pw, if count == 1 { first_n } else { part_len });
        }
    }
}

/// Reading a residual only moves forward.
pub proof fn lemma_residual_end(d: Seq<u8>, pos: int, prelude: nat, len: nat)
    requires
        0 <= pos,
    ensures
        residual(d, pos, prelude, len) matches Ok((_, q)) ==> q >= pos,
{
    reveal(residual);
    let pw: nat = if bits_val(d, pos, 2) == 0 { 4 } else { 5 };
    let order = bits_val(d, pos + 2, 4);
    let part_len = len / pow2(order);
    lemma_partitions_end(d, pos + 6, pw, (part_len - prelude) as nat, part_len, pow2(order));
}

} // verus!
