//! Reading the Huffman coded spectral samples of a layer 3 granule channel.
//!
//! The samples are read as integers. Raising each to the 4/3 power, and the scaling that follows,
//! is floating point work left to the caller.

use vstd::prelude::*;
use vstd::arithmetic::power2::{pow2, lemma2_to64, lemma_pow2_strictly_increases};
use crate::errors::{Error, decode_error};
use crate::io::{BitStreamLtr, eof};
use crate::io::bits_model::{bit_at, bits_val, lemma_bits_val_bound};
use crate::io::huffman::{HuffmanTable, H8, huffman_table_wf, huffman_decode, lemma_huffman_decode_len};

verus! {

/// A Huffman table of the big_values partition, with the number of extra bits ("linbits") that
/// follow a saturated value.
pub struct MpegHuffmanTable {
    /// The Huffman decode table; an empty table codes only zeros.
    pub huff_table: &'static HuffmanTable<H8>,
    /// Number of extra bits to read if the decoded Huffman value is saturated.
    pub linbits: u32,
}

/// A usable big_values table: empty, or one whose look-ups stay inside it; and at most 13
/// linbits, the most that the standard uses.
pub open spec fn mpeg_table_wf(t: &MpegHuffmanTable) -> bool {
    &&& t.huff_table.data@.len() == 0 || huffman_table_wf(t.huff_table)
    &&& t.linbits <= 13
}

/// The side information of a granule channel that the Huffman decoding reads.
#[derive(Copy, Clone, Debug)]
pub struct GranuleChannel {
    /// Half the number of samples in the big_values partition.
    pub big_values: u16,
    /// The sample index where region 1 of the big_values partition starts.
    pub region1_start: u32,
    /// The sample index where region 2 of the big_values partition starts.
    pub region2_start: u32,
    /// The big_values table of each region.
    pub table_select: [u8; 3],
    /// Whether the count1 partition uses quadruple table B rather than A.
    pub count1table_select: bool,
}

/// The error given when the Huffman data runs past its length before a big_values code.
pub open spec fn huffman_overrun() -> Error {
    Error::DecodeError("mp3: Huffman data overrun")
}

/// The (exclusive) end of region `k` of the big_values partition, clamped to the partition.
pub open spec fn region_end(ch: GranuleChannel, k: int) -> int {
    let len = 2 * ch.big_values;
    let start = if k == 0 {
        ch.region1_start as int
    } else if k == 1 {
        ch.region2_start as int
    } else {
        576
    };
    if start < len {
        start
    } else {
        len
    }
}

/// The region that sample `i` is read in: the first one whose end lies past it, or 3 once the
/// big_values partition is done.
pub open spec fn region_of(ch: GranuleChannel, i: int) -> int {
    if i < region_end(ch, 0) {
        0
    } else if i < region_end(ch, 1) {
        1
    } else if i < region_end(ch, 2) {
        2
    } else {
        3
    }
}

/// One sample of a big_values pair with coded magnitude `v`, read from bit `p` of `s`: a
/// saturated magnitude (15) is followed by `linbits` more bits that add to it, and a non-zero
/// magnitude by a sign bit (1 is negative). The sample and the bit index after it.
pub open spec fn big_value_sample(s: Seq<u8>, p: int, v: int, linbits: nat) -> Result<
    (i32, int),
    Error,
> {
    let escaped = v == 15 && linbits > 0;
    if v == 0 {
        Ok((0, p))
    } else if escaped && p + linbits > 8 * s.len() {
        Err(eof())
    } else {
        let mag: int = if escaped {
            v + bits_val(s, p, linbits)
        } else {
            v
        };
        let q = if escaped {
            p + linbits
        } else {
            p
        };
        if q >= 8 * s.len() {
            Err(eof())
        } else if bit_at(s, q) == 1 {
            Ok(((-mag) as i32, q + 1))
        } else {
            Ok((mag as i32, q + 1))
        }
    }
}

/// A big_values pair read with table `t` from bit `p`, its code no longer than `lim` bits: the
/// code holds the magnitudes of the two samples, 16 times the first plus the second. The two
/// samples and the bit index after them.
#[verifier::opaque]
pub open spec fn big_value_codes(t: MpegHuffmanTable, s: Seq<u8>, p: int, lim: nat) -> Result<
    (i32, i32, int),
    Error,
> {
    match huffman_decode(t.huff_table, s, p, lim) {
        Err(e) => Err(e),
        Ok((v, len, end)) => match big_value_sample(s, end, (v / 16) as int, t.linbits as nat) {
            Err(e) => Err(e),
            Ok((x, q)) => match big_value_sample(s, q, (v % 16) as int, t.linbits as nat) {
                Err(e) => Err(e),
                Ok((y, q2)) => Ok((x, y, q2)),
            },
        },
    }
}

/// A big_values pair: two zeros with no bits read for an empty table; otherwise, with `left`
/// bits of the Huffman data left, the overrun error when none are, else the pair read.
pub open spec fn big_value_pair(t: MpegHuffmanTable, s: Seq<u8>, p: int, left: int) -> Result<
    (i32, i32, int),
    Error,
> {
    if t.huff_table.data@.len() == 0 {
        Ok((0, 0, p))
    } else if left <= 0 {
        Err(huffman_overrun())
    } else {
        big_value_codes(t, s, p, left as nat)
    }
}

/// The big_values partition from sample `i` on, at bit `p`, after the samples `acc`; the Huffman
/// data starts at bit `p0` and is `part3` bits long. Each pair is read with the table of the
/// region that it starts in. The bit index, sample count and samples at its end.
#[verifier::opaque]
pub open spec fn big_values_from(
    tables: Seq<MpegHuffmanTable>,
    ch: GranuleChannel,
    s: Seq<u8>,
    p0: int,
    part3: int,
    p: int,
    i: int,
    acc: Seq<i32>,
) -> Result<(int, int, Seq<i32>), Error>
    decreases 576 - i,
{
    let k = region_of(ch, i);
    if k >= 3 || i < 0 || i + 2 > 576 {
        Ok((p, i, acc))
    } else {
        let t = tables[ch.table_select[k] as int];
        match big_value_pair(t, s, p, part3 - (p - p0)) {
            Err(e) => Err(e),
            Ok((x, y, q)) => big_values_from(tables, ch, s, p0, part3, q, i + 2, acc.push(x).push(y)),
        }
    }
}

/// One sample of a count1 quadruple: 0 if its bit in the code is clear, else +1 or -1 by the
/// sign bit that follows. The sample and the bit index after it.
pub open spec fn quad_sample(s: Seq<u8>, p: int, set: bool) -> Result<(i32, int), Error> {
    if !set {
        Ok((0, p))
    } else if p >= 8 * s.len() {
        Err(eof())
    } else if bit_at(s, p) == 1 {
        Ok((-1i32, p + 1))
    } else {
        Ok((1i32, p + 1))
    }
}

/// A count1 quadruple read with table `t` from bit `p`, its code no longer than `lim` bits: the
/// bits 8, 4, 2 and 1 of the code are the four samples in turn. The samples and the bit index
/// after them.
#[verifier::opaque]
pub open spec fn count1_quad(t: &HuffmanTable<H8>, s: Seq<u8>, p: int, lim: nat) -> Result<
    (Seq<i32>, int),
    Error,
> {
    match huffman_decode(t, s, p, lim) {
        Err(e) => Err(e),
        Ok((v, len, q0)) => match quad_sample(s, q0, v / 8 % 2 == 1) {
            Err(e) => Err(e),
            Ok((a, q1)) => match quad_sample(s, q1, v / 4 % 2 == 1) {
                Err(e) => Err(e),
                Ok((b, q2)) => match quad_sample(s, q2, v / 2 % 2 == 1) {
                    Err(e) => Err(e),
                    Ok((c, q3)) => match quad_sample(s, q3, v % 2 == 1) {
                        Err(e) => Err(e),
                        Ok((d, q4)) => Ok((seq![a, b, c, d], q4)),
                    },
                },
            },
        },
    }
}

/// The code length limit of a count1 read with `left` bits of the Huffman data left: the
/// table's longest code past them is allowed, up to what a `u32` holds.
pub open spec fn count1_limit(t: &HuffmanTable<H8>, left: int) -> nat {
    let lim = left + t.n_table_bits;
    if lim > u32::MAX {
        u32::MAX as nat
    } else {
        lim as nat
    }
}

/// The count1 partition from sample `i` on, at bit `p`, after the samples `acc`: quadruples are
/// read while they fit in the 576 samples and bits of the Huffman data are left.
#[verifier::opaque]
pub open spec fn count1_from(
    t: &HuffmanTable<H8>,
    s: Seq<u8>,
    p0: int,
    part3: int,
    p: int,
    i: int,
    acc: Seq<i32>,
) -> Result<(int, int, Seq<i32>), Error>
    decreases 576 - i,
{
    if i > 572 || i < 0 || p - p0 >= part3 {
        Ok((p, i, acc))
    } else {
        match count1_quad(t, s, p, count1_limit(t, part3 - (p - p0))) {
            Err(e) => Err(e),
            Ok((q4, q)) => count1_from(t, s, p0, part3, q, i + 4, acc + q4),
        }
    }
}

/// `n` zero samples.
pub open spec fn zero_samples(n: int) -> Seq<i32> {
    Seq::new(n as nat, |j: int| 0i32)
}

/// The Huffman coded samples of a granule channel whose Huffman data starts at bit `p0` of `s`
/// and is `part3` bits long: the big_values pairs, then the count1 quadruples, then zeros up to
/// 576 samples. Stuffing bits left after the quadruples are skipped; where the last quadruple
/// runs past the data, its samples are dropped. The number of samples read (the start of the zero
/// partition), the 576 samples, and the bit index at the end.
pub open spec fn huffman_samples(
    tables: Seq<MpegHuffmanTable>,
    quads_a: &HuffmanTable<H8>,
    quads_b: &HuffmanTable<H8>,
    ch: GranuleChannel,
    part3: int,
    s: Seq<u8>,
    p0: int,
) -> Result<(int, Seq<i32>, int), Error> {
    if part3 == 0 {
        Ok((0, zero_samples(576), p0))
    } else {
        match big_values_from(tables, ch, s, p0, part3, p0, 0, seq![]) {
            Err(e) => Err(e),
            Ok((p1, i1, b1)) => {
                let qt = if ch.count1table_select {
                    quads_b
                } else {
                    quads_a
                };
                match count1_from(qt, s, p0, part3, p1, i1, b1) {
                    Err(e) => Err(e),
                    Ok((p2, i2, b2)) => {
                        if p2 - p0 < part3 {
                            if p0 + part3 > 8 * s.len() {
                                Err(eof())
                            } else {
                                Ok((i2, b2 + zero_samples(576 - i2), p0 + part3))
                            }
                        } else if p2 - p0 > part3 {
                            if i2 < 4 {
                                Err(huffman_overrun())
                            } else {
                                Ok((i2 - 4, b2.take(i2 - 4) + zero_samples(576 - (i2 - 4)), p2))
                            }
                        } else {
                            Ok((i2, b2 + zero_samples(576 - i2), p2))
                        }
                    },
                }
            },
        }
    }
}

/// One step of the big_values partition: a pair in the current region, then the rest.
proof fn lemma_big_values_step(
    tables: Seq<MpegHuffmanTable>,
    ch: GranuleChannel,
    s: Seq<u8>,
    p0: int,
    part3: int,
    p: int,
    i: int,
    acc: Seq<i32>,
)
    requires
        region_of(ch, i) < 3,
        0 <= i,
        i % 2 == 0,
        ch.big_values <= 288,
    ensures
        big_values_from(tables, ch, s, p0, part3, p, i, acc) == (match big_value_pair(
            tables[ch.table_select[region_of(ch, i)] as int],
            s,
            p,
            part3 - (p - p0),
        ) {
            Err(e) => Err(e),
            Ok((x, y, q)) => big_values_from(tables, ch, s, p0, part3, q, i + 2, acc.push(x).push(y)),
        }),
{
    reveal(big_values_from);
}

/// The big_values partition ends where no region lies past the current sample.
proof fn lemma_big_values_stop(
    tables: Seq<MpegHuffmanTable>,
    ch: GranuleChannel,
    s: Seq<u8>,
    p0: int,
    part3: int,
    p: int,
    i: int,
    acc: Seq<i32>,
)
    requires
        region_of(ch, i) >= 3,
    ensures
        big_values_from(tables, ch, s, p0, part3, p, i, acc) == Ok::<(int, int, Seq<i32>), Error>(
            (p, i, acc),
        ),
{
    reveal(big_values_from);
}

/// One step of the count1 partition: a quadruple, then the rest.
proof fn lemma_count1_step(
    t: &HuffmanTable<H8>,
    s: Seq<u8>,
    p0: int,
    part3: int,
    p: int,
    i: int,
    acc: Seq<i32>,
)
    requires
        0 <= i <= 572,
        p - p0 < part3,
    ensures
        count1_from(t, s, p0, part3, p, i, acc) == (match count1_quad(
            t,
            s,
            p,
            count1_limit(t, part3 - (p - p0)),
        ) {
            Err(e) => Err(e),
            Ok((q4, q)) => count1_from(t, s, p0, part3, q, i + 4, acc + q4),
        }),
{
    reveal(count1_from);
}

/// The count1 partition ends once the samples are full or the data is used up.
proof fn lemma_count1_stop(
    t: &HuffmanTable<H8>,
    s: Seq<u8>,
    p0: int,
    part3: int,
    p: int,
    i: int,
    acc: Seq<i32>,
)
    requires
        i > 572 || p - p0 >= part3,
    ensures
        count1_from(t, s, p0, part3, p, i, acc) == Ok::<(int, int, Seq<i32>), Error>((p, i, acc)),
{
    reveal(count1_from);
}

/// Reads one sample of a big_values pair with coded magnitude `v`.
fn read_big_value_sample(bs: &mut BitStreamLtr, v: u8, linbits: u32) -> (r: Result<
    (i32, u32),
    Error,
>)
    requires
        old(bs).valid(),
        v < 16,
        linbits <= 13,
    ensures
        final(bs).data() == old(bs).data(),
        match big_value_sample(old(bs).data(), old(bs).bit_pos(), v as int, linbits as nat) {
            Ok((x, q)) => r matches Ok((x2, used)) && x2 == x && final(bs).valid()
                && final(bs).bit_pos() == q && q == old(bs).bit_pos() + used && used <= 14,
            Err(e) => r == Err::<(i32, u32), Error>(e),
        },
{
    if v == 0 {
        return Ok((0, 0));
    }
    let ghost s = bs.data();
    let ghost p = bs.bit_pos();
    let mut mag: i32 = v as i32;
    let mut used: u32 = 1;
    if v == 15 && linbits > 0 {
        let extra = bs.read_bits_leq32(linbits)?;
        proof {
            lemma_bits_val_bound(s, p, linbits as nat);
            lemma2_to64();
            if linbits < 13 {
                lemma_pow2_strictly_increases(linbits as nat, 13);
            }
        }
        mag = mag + extra as i32;
        used = used + linbits;
    }
    let neg = bs.read_bit()?;
    if neg {
        Ok((-mag, used))
    } else {
        Ok((mag, used))
    }
}

/// Reads the code of a big_values pair with a non-empty table `t`, and its two samples.
fn read_big_value_codes(bs: &mut BitStreamLtr, t: &MpegHuffmanTable, lim: u32) -> (r: Result<
    (i32, i32, u64),
    Error,
>)
    requires
        old(bs).valid(),
        mpeg_table_wf(t),
        t.huff_table.data@.len() > 0,
        lim > 0,
    ensures
        final(bs).data() == old(bs).data(),
        match big_value_codes(*t, old(bs).data(), old(bs).bit_pos(), lim as nat) {
            Ok((x, y, q)) => r matches Ok((x2, y2, used)) && x2 == x && y2 == y && final(bs).valid()
                && final(bs).bit_pos() == q && q == old(bs).bit_pos() + used
                && used < 0x1_0000_0020,
            Err(e) => r == Err::<(i32, i32, u64), Error>(e),
        },
{
    proof {
        reveal(big_value_codes);
        lemma_huffman_decode_len(t.huff_table, bs.data(), bs.bit_pos(), lim as nat);
    }
    let (value, code_len) = bs.read_huffman(t.huff_table, lim)?;
    let (x, ux) = read_big_value_sample(bs, value / 16, t.linbits)?;
    let (y, uy) = read_big_value_sample(bs, value % 16, t.linbits)?;
    Ok((x, y, code_len as u64 + ux as u64 + uy as u64))
}

/// Reads one sample of a count1 quadruple whose code bit is `set`.
fn read_quad_sample(bs: &mut BitStreamLtr, set: bool) -> (r: Result<(i32, u64), Error>)
    requires
        old(bs).valid(),
    ensures
        final(bs).data() == old(bs).data(),
        match quad_sample(old(bs).data(), old(bs).bit_pos(), set) {
            Ok((x, q)) => r matches Ok((x2, used)) && x2 == x && final(bs).valid()
                && final(bs).bit_pos() == q && q == old(bs).bit_pos() + used && used <= 1,
            Err(e) => r == Err::<(i32, u64), Error>(e),
        },
{
    if !set {
        return Ok((0, 0));
    }
    let neg = bs.read_bit()?;
    if neg {
        Ok((-1, 1))
    } else {
        Ok((1, 1))
    }
}

/// Reads a count1 quadruple with table `t`.
fn read_count1_quad(bs: &mut BitStreamLtr, t: &HuffmanTable<H8>, lim: u32) -> (r: Result<
    (i32, i32, i32, i32, u64),
    Error,
>)
    requires
        old(bs).valid(),
        huffman_table_wf(t),
        lim > 0,
    ensures
        final(bs).data() == old(bs).data(),
        match count1_quad(t, old(bs).data(), old(bs).bit_pos(), lim as nat) {
            Ok((q4, q)) => r matches Ok((a, b, c, d, used)) && q4 == seq![a, b, c, d]
                && final(bs).valid() && final(bs).bit_pos() == q && q == old(bs).bit_pos() + used
                && used < 0x1_0000_0008,
            Err(e) => r == Err::<(i32, i32, i32, i32, u64), Error>(e),
        },
{
    proof {
        reveal(count1_quad);
        lemma_huffman_decode_len(t, bs.data(), bs.bit_pos(), lim as nat);
    }
    let (value, code_len) = bs.read_huffman(t, lim)?;
    let (a, ua) = read_quad_sample(bs, value / 8 % 2 == 1)?;
    let (b, ub) = read_quad_sample(bs, value / 4 % 2 == 1)?;
    let (c, uc) = read_quad_sample(bs, value / 2 % 2 == 1)?;
    let (d, ud) = read_quad_sample(bs, value % 2 == 1)?;
    Ok((a, b, c, d, code_len as u64 + ua + ub + uc + ud))
}

/// The region that sample `i` is read in, given the ends of the three regions.
fn region_index(e0: usize, e1: usize, e2: usize, i: usize) -> (k: usize)
    ensures
        k == (if i < e0 {
            0int
        } else if i < e1 {
            1int
        } else if i < e2 {
            2int
        } else {
            3int
        }),
{
    if i < e0 {
        0
    } else if i < e1 {
        1
    } else if i < e2 {
        2
    } else {
        3
    }
}

/// Reads the Huffman coded spectral samples of a granule channel from `bs` into `out`, and returns
/// the number of samples read: the start of the zero partition, after which all samples are 0.
///
/// The Huffman data is `part3_bits` bits long. The big_values pairs are read with the tables of
/// `tables` that `channel.table_select` picks, and the count1 quadruples with `quads_b` where
/// `channel.count1table_select` is set, else with `quads_a`. Each sample is the integer read:
/// a big_values magnitude with its sign, or +1, -1 or 0 in the count1 partition.
pub fn read_huffman_samples(
    bs: &mut BitStreamLtr,
    channel: &GranuleChannel,
    part3_bits: u32,
    tables: &[MpegHuffmanTable],
    quads_a: &HuffmanTable<H8>,
    quads_b: &HuffmanTable<H8>,
    out: &mut [i32; 576],
) -> (r: Result<usize, Error>)
    requires
        old(bs).valid(),
        channel.big_values <= 288,
        forall|k: int| 0 <= k < 3 ==> (#[trigger] channel.table_select[k]) < tables@.len(),
        forall|j: int| 0 <= j < tables@.len() ==> mpeg_table_wf(&#[trigger] tables@[j]),
        huffman_table_wf(quads_a),
        huffman_table_wf(quads_b),
    ensures
        final(bs).data() == old(bs).data(),
        match huffman_samples(
            tables@,
            quads_a,
            quads_b,
            *channel,
            part3_bits as int,
            old(bs).data(),
            old(bs).bit_pos(),
        ) {
            Ok((n, samples, end)) => r == Ok::<usize, Error>(n as usize) && final(out)@ == samples
                && final(bs).valid() && final(bs).bit_pos() == end,
            Err(e) => r == Err::<usize, Error>(e),
        },
{
    let ghost s = bs.data();
    let ghost p0 = bs.bit_pos();
    let ghost part3 = part3_bits as int;
    // With no Huffman data, all samples are zero.
    if part3_bits == 0 {
        let mut j: usize = 0;
        while j < 576
            invariant
                j <= 576,
                forall|m: int| 0 <= m < j ==> out@[m] == 0i32,
            decreases 576 - j,
        {
            out[j] = 0;
            j = j + 1;
        }
        assert(out@ =~= zero_samples(576));
        return Ok(0);
    }
    // The big_values partition: up to 3 regions, each with its own table, clamped to the
    // partition's 2 * big_values samples.
    let big_values_len: usize = 2 * channel.big_values as usize;
    let r1 = channel.region1_start as usize;
    let r2 = channel.region2_start as usize;
    let e0: usize = if r1 < big_values_len {
        r1
    } else {
        big_values_len
    };
    let e1: usize = if r2 < big_values_len {
        r2
    } else {
        big_values_len
    };
    let e2: usize = if 576 < big_values_len {
        576
    } else {
        big_values_len
    };
    let mut i: usize = 0;
    let mut bits_read: u64 = 0;
    let ghost mut acc: Seq<i32> = seq![];
    let ghost big = big_values_from(tables@, *channel, s, p0, part3, p0, 0, seq![]);
    while region_index(e0, e1, e2, i) < 3
        invariant
            s == old(bs).data(),
            p0 == old(bs).bit_pos(),
            part3 == part3_bits,
            part3_bits > 0,
            forall|k: int| 0 <= k < 3 ==> (#[trigger] channel.table_select[k]) < tables@.len(),
            forall|j: int| 0 <= j < tables@.len() ==> mpeg_table_wf(&#[trigger] tables@[j]),
            e0 == region_end(*channel, 0),
            e1 == region_end(*channel, 1),
            e2 == region_end(*channel, 2),
            channel.big_values <= 288,
            bs.data() == s,
            bs.valid(),
            bits_read == bs.bit_pos() - p0,
            bits_read <= part3 + 0x1_0000_0040,
            i <= 576,
            i % 2 == 0,
            acc.len() == i,
            forall|m: int| 0 <= m < i ==> out@[m] == acc[m],
            big == big_values_from(tables@, *channel, s, p0, part3, p0, 0, seq![]),
            big == big_values_from(tables@, *channel, s, p0, part3, bs.bit_pos(), i as int, acc),
        decreases 576 - i,
    {
        let k = region_index(e0, e1, e2, i);
        proof {
            lemma_big_values_step(tables@, *channel, s, p0, part3, bs.bit_pos(), i as int, acc);
        }
        let sel = channel.table_select[k];
        let t = &tables[sel as usize];
        assert(mpeg_table_wf(&tables@[sel as int]));
        if t.huff_table.data.len() == 0 {
            // An empty table codes only zeros.
            out[i] = 0;
            out[i + 1] = 0;
            proof {
                acc = acc.push(0i32).push(0i32);
            }
            i = i + 2;
        } else {
            if bits_read >= part3_bits as u64 {
                return Err(Error::DecodeError("mp3: Huffman data overrun"));
            }
            let lim = (part3_bits as u64 - bits_read) as u32;
            let (x, y, used) = read_big_value_codes(bs, t, lim)?;
            out[i] = x;
            out[i + 1] = y;
            proof {
                acc = acc.push(x).push(y);
            }
            i = i + 2;
            bits_read = bits_read + used;
        }
    }
    proof {
        lemma_big_values_stop(tables@, *channel, s, p0, part3, bs.bit_pos(), i as int, acc);
    }
    // The count1 partition.
    let qt = if channel.count1table_select {
        quads_b
    } else {
        quads_a
    };
    let ghost p1 = bs.bit_pos();
    let ghost i1 = i as int;
    let ghost acc1 = acc;
    let ghost count1 = count1_from(qt, s, p0, part3, p1, i1, acc1);
    while i <= 572 && bits_read < part3_bits as u64
        invariant
            s == old(bs).data(),
            p0 == old(bs).bit_pos(),
            part3 == part3_bits,
            huffman_table_wf(qt),
            bs.data() == s,
            bs.valid(),
            bits_read == bs.bit_pos() - p0,
            bits_read <= part3 + 0x1_0000_0040,
            i <= 576,
            i % 2 == 0,
            acc.len() == i,
            forall|m: int| 0 <= m < i ==> out@[m] == acc[m],
            part3_bits > 0,
            big == big_values_from(tables@, *channel, s, p0, part3, p0, 0, seq![]),
            big == Ok::<(int, int, Seq<i32>), Error>((p1, i1, acc1)),
            qt == (if channel.count1table_select {
                quads_b
            } else {
                quads_a
            }),
            count1 == count1_from(qt, s, p0, part3, p1, i1, acc1),
            count1 == count1_from(qt, s, p0, part3, bs.bit_pos(), i as int, acc),
        decreases 576 - i,
    {
        // A few bits past the data are allowed, in case the last quadruple runs over it.
        let lim64 = part3_bits as u64 + qt.n_table_bits as u64 - bits_read;
        let lim: u32 = if lim64 > 0xffff_ffff {
            0xffff_ffff
        } else {
            lim64 as u32
        };
        proof {
            lemma_count1_step(qt, s, p0, part3, bs.bit_pos(), i as int, acc);
        }
        let (a, b, c, d, used) = read_count1_quad(bs, qt, lim)?;
        out[i] = a;
        out[i + 1] = b;
        out[i + 2] = c;
        out[i + 3] = d;
        proof {
            assert(acc + seq![a, b, c, d] =~= acc.push(a).push(b).push(c).push(d));
            acc = acc + seq![a, b, c, d];
        }
        i = i + 4;
        bits_read = bits_read + used;
    }
    proof {
        lemma_count1_stop(qt, s, p0, part3, bs.bit_pos(), i as int, acc);
    }
    let mut n = i;
    if bits_read < part3_bits as u64 {
        // Skip the stuffing bits.
        bs.ignore_bits((part3_bits as u64 - bits_read) as u32)?;
    } else if bits_read > part3_bits as u64 {
        // The last quadruple ran past the data: its samples are not real, so drop them.
        if i < 4 {
            return Err(Error::DecodeError("mp3: Huffman data overrun"));
        }
        n = i - 4;
    }
    // The rzero partition: all samples from `n` on are zero.
    let mut j: usize = n;
    while j < 576
        invariant
            n <= j <= 576,
            n <= i,
            acc.len() == i,
            forall|m: int| 0 <= m < n ==> out@[m] == acc[m],
            forall|m: int| n <= m < j ==> out@[m] == 0i32,
        decreases 576 - j,
    {
        out[j] = 0;
        j = j + 1;
    }
    assert(out@ =~= acc.take(n as int) + zero_samples(576 - n));
    assert(acc.take(i as int) =~= acc);
    Ok(n)
}

} // verus!
