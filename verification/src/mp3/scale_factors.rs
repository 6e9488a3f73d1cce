//! MPEG audio layer 3 scale factors.

use vstd::prelude::*;
use vstd::arithmetic::power2::{pow2, lemma2_to64};
use crate::errors::Error;
use crate::io::{BitStreamLtr, eof};
use crate::io::bits_model::{bits_val, lemma_bits_val_bound};
use crate::mp3::side_info::{BlockType, GranuleChannelSideInfoL3, SideInfoL3};

verus! {

/// The scale factors of one channel of a granule.
///
/// Long (scalefac_l) and short (scalefac_s) window scale factor bands must be interpreted based
/// on the block type. For a short block that is not mixed, `scalefac_s = scalefacs[0..36]`; for a
/// mixed one, `scalefac_l[0..8] = scalefacs[0..8]` and `scalefac_s[0..27] = scalefacs[8..35]`;
/// for other blocks, `scalefac_l[0..21] = scalefacs[0..21]`.
#[derive(Copy, Clone, Debug)]
pub struct MainDataGranuleChannel {
    pub scalefacs: [u8; 36],
}

impl MainDataGranuleChannel {
    /// Scale factors that are all zero.
    pub fn new() -> (r: Self)
        ensures
            forall|i: int| 0 <= i < 36 ==> #[trigger] r.scalefacs[i] == 0,
    {
        MainDataGranuleChannel { scalefacs: [0u8; 36] }
    }
}

impl Default for MainDataGranuleChannel {
    fn default() -> (r: Self)
        ensures
            forall|i: int| 0 <= i < 36 ==> #[trigger] r.scalefacs[i] == 0,
    {
        MainDataGranuleChannel::new()
    }
}

/// The scale factors of the channels of a granule.
#[derive(Copy, Clone, Debug)]
pub struct MainDataGranule {
    pub channels: [MainDataGranuleChannel; 2],
}

/// The scale factors of the granules of a frame.
#[derive(Copy, Clone, Debug)]
pub struct MainData {
    pub granules: [MainDataGranule; 2],
}

impl MainData {
    /// Scale factors that are all zero.
    pub fn new() -> (r: Self)
        ensures
            forall|g: int, c: int, i: int|
                0 <= g < 2 && 0 <= c < 2 && 0 <= i < 36 ==> #[trigger] r.granules[g].channels[c].scalefacs[i]
                    == 0,
    {
        let ch = MainDataGranuleChannel::new();
        let gr = MainDataGranule { channels: [ch, ch] };
        MainData { granules: [gr, gr] }
    }
}

/// The number of bits read before scale factor `i`, when scale factor `j` is `w[j]` bits wide.
pub open spec fn width_offset(w: Seq<nat>, i: int) -> int
    decreases i,
{
    if i <= 0 {
        0
    } else {
        width_offset(w, i - 1) + w[i - 1]
    }
}

proof fn lemma_width_offset_mono(w: Seq<nat>, i: int, j: int)
    requires
        0 <= i <= j,
    ensures
        width_offset(w, i) <= width_offset(w, j),
    decreases j - i,
{
    if i < j {
        lemma_width_offset_mono(w, i, j - 1);
    }
}

/// The scale factors read at bit `p` of `d` when scale factor `i` is `w[i]` bits wide.
pub open spec fn read_values(d: Seq<u8>, p: int, w: Seq<nat>) -> Seq<u8> {
    Seq::new(w.len(), |i: int| bits_val(d, p + width_offset(w, i), w[i]) as u8)
}

/// The number of scale factor bands in each of the four partitions, for a row of the MPEG
/// version 2 partition table, selected by the stereo mode and coded lengths, and a block index
/// `bi`: 0 for long, 1 for short and 2 for mixed blocks.
pub open spec fn nsfb_row(row: nat, bi: nat) -> Seq<nat> {
    if row == 0 && bi == 0 {
        seq![6nat, 5, 5, 5]
    } else if row == 0 && bi == 1 {
        seq![9nat, 9, 9, 9]
    } else if row == 0 && bi == 2 {
        seq![6nat, 9, 9, 9]
    } else if row == 1 && bi == 0 {
        seq![6nat, 5, 7, 3]
    } else if row == 1 && bi == 1 {
        seq![9nat, 9, 12, 6]
    } else if row == 1 && bi == 2 {
        seq![6nat, 9, 12, 6]
    } else if row == 2 && bi == 0 {
        seq![11nat, 10, 0, 0]
    } else if row == 2 && bi == 1 {
        seq![18nat, 18, 0, 0]
    } else if row == 2 && bi == 2 {
        seq![15nat, 18, 0, 0]
    } else if row == 3 && bi == 0 {
        seq![7nat, 7, 7, 0]
    } else if row == 3 && bi == 1 {
        seq![12nat, 12, 12, 0]
    } else if row == 3 && bi == 2 {
        seq![6nat, 15, 12, 0]
    } else if row == 4 && bi == 0 {
        seq![6nat, 6, 6, 3]
    } else if row == 4 && bi == 1 {
        seq![12nat, 9, 9, 6]
    } else if row == 4 && bi == 2 {
        seq![6nat, 12, 9, 6]
    } else if row == 5 && bi == 0 {
        seq![8nat, 8, 5, 0]
    } else if row == 5 && bi == 1 {
        seq![15nat, 12, 9, 0]
    } else {
        seq![6nat, 18, 9, 0]
    }
}

/// The number of scale factor bands in partition `k`.
pub open spec fn nsfb(row: nat, bi: nat, k: nat) -> nat {
    nsfb_row(row, bi)[k as int]
}

fn nsfb_of(row: usize, bi: usize, k: usize) -> (r: usize)
    requires
        row < 6,
        bi < 3,
        k < 4,
    ensures
        r == nsfb(row as nat, bi as nat, k as nat),
        r <= 18,
{
    match (row, bi, k) {
        (0, 0, 0) => 6,
        (0, 0, 1) => 5,
        (0, 0, 2) => 5,
        (0, 0, 3) => 5,
        (0, 1, 0) => 9,
        (0, 1, 1) => 9,
        (0, 1, 2) => 9,
        (0, 1, 3) => 9,
        (0, 2, 0) => 6,
        (0, 2, 1) => 9,
        (0, 2, 2) => 9,
        (0, 2, 3) => 9,
        (1, 0, 0) => 6,
        (1, 0, 1) => 5,
        (1, 0, 2) => 7,
        (1, 0, 3) => 3,
        (1, 1, 0) => 9,
        (1, 1, 1) => 9,
        (1, 1, 2) => 12,
        (1, 1, 3) => 6,
        (1, 2, 0) => 6,
        (1, 2, 1) => 9,
        (1, 2, 2) => 12,
        (1, 2, 3) => 6,
        (2, 0, 0) => 11,
        (2, 0, 1) => 10,
        (2, 0, 2) => 0,
        (2, 0, 3) => 0,
        (2, 1, 0) => 18,
        (2, 1, 1) => 18,
        (2, 1, 2) => 0,
        (2, 1, 3) => 0,
        (2, 2, 0) => 15,
        (2, 2, 1) => 18,
        (2, 2, 2) => 0,
        (2, 2, 3) => 0,
        (3, 0, 0) => 7,
        (3, 0, 1) => 7,
        (3, 0, 2) => 7,
        (3, 0, 3) => 0,
        (3, 1, 0) => 12,
        (3, 1, 1) => 12,
        (3, 1, 2) => 12,
        (3, 1, 3) => 0,
        (3, 2, 0) => 6,
        (3, 2, 1) => 15,
        (3, 2, 2) => 12,
        (3, 2, 3) => 0,
        (4, 0, 0) => 6,
        (4, 0, 1) => 6,
        (4, 0, 2) => 6,
        (4, 0, 3) => 3,
        (4, 1, 0) => 12,
        (4, 1, 1) => 9,
        (4, 1, 2) => 9,
        (4, 1, 3) => 6,
        (4, 2, 0) => 6,
        (4, 2, 1) => 12,
        (4, 2, 2) => 9,
        (4, 2, 3) => 6,
        (5, 0, 0) => 8,
        (5, 0, 1) => 8,
        (5, 0, 2) => 5,
        (5, 0, 3) => 0,
        (5, 1, 0) => 15,
        (5, 1, 1) => 12,
        (5, 1, 2) => 9,
        (5, 1, 3) => 0,
        (5, 2, 0) => 6,
        (5, 2, 1) => 18,
        (5, 2, 2) => 9,
        _ => 0,
    }
}
/// The row of the partition table and the lengths of the scale factors of each of the four
/// partitions of an MPEG version 2 granule channel, decoded from `scalefac_compress`. The right
/// channel of an intensity stereo frame codes them differently.
pub open spec fn lsf_lengths(sfc: u16, intensity: bool) -> (nat, Seq<nat>) {
    if intensity {
        let s = (sfc as u32) >> 1;
        if s <= 179 {
            (0, seq![(s / 36) as nat, ((s % 36) / 6) as nat, ((s % 36) % 6) as nat, 0])
        } else if s <= 243 {
            (
                1,
                seq![
                    (((s - 180) as u32 % 64) >> 4) as nat,
                    (((s - 180) as u32 % 16) >> 2) as nat,
                    ((s - 180) % 4) as nat,
                    0,
                ],
            )
        } else {
            (2, seq![((s - 244) / 3) as nat, ((s - 244) % 3) as nat, 0, 0])
        }
    } else {
        let s = sfc as u32;
        if s <= 399 {
            (3, seq![((s >> 4) / 5) as nat, ((s >> 4) % 5) as nat, ((s % 16) >> 2) as nat, (s % 4) as nat])
        } else if s <= 499 {
            (
                4,
                seq![
                    ((((s - 400) as u32) >> 2) / 5) as nat,
                    ((((s - 400) as u32) >> 2) % 5) as nat,
                    ((s - 400) % 4) as nat,
                    0,
                ],
            )
        } else {
            (5, seq![((s - 500) / 3) as nat, ((s - 500) % 3) as nat, 0, 0])
        }
    }
}

/// The block index of a block type in the partition table: 0 for long, 1 for short and 2 for
/// mixed blocks.
pub open spec fn block_index(bt: BlockType) -> nat {
    match bt {
        BlockType::Short { is_mixed: true } => 2,
        BlockType::Short { is_mixed: false } => 1,
        _ => 0,
    }
}

/// The number of scale factors in the first `k` partitions.
pub open spec fn nsfb_sum(row: nat, bi: nat, k: nat) -> nat
    decreases k,
{
    if k == 0 {
        0
    } else {
        nsfb_sum(row, bi, (k - 1) as nat) + nsfb(row, bi, (k - 1) as nat)
    }
}

/// The width of scale factor `i` of an MPEG version 2 granule channel.
pub open spec fn lsf_width(i: int, row: nat, bi: nat, slens: Seq<nat>) -> nat {
    if i < nsfb_sum(row, bi, 1) {
        slens[0]
    } else if i < nsfb_sum(row, bi, 2) {
        slens[1]
    } else if i < nsfb_sum(row, bi, 3) {
        slens[2]
    } else {
        slens[3]
    }
}

/// The widths of the scale factors coded in an MPEG version 2 granule channel.
pub open spec fn lsf_widths(g: GranuleChannelSideInfoL3, intensity: bool) -> Seq<nat> {
    let (row, slens) = lsf_lengths(g.scalefac_compress, intensity);
    let bi = block_index(g.block_type);
    Seq::new(nsfb_sum(row, bi, 4), |i: int| lsf_width(i, row, bi, slens))
}

fn lsf_lengths_of(sfc: u16, intensity: bool) -> (r: (usize, [u32; 4]))
    requires
        sfc <= 511,
    ensures
        r.0 == lsf_lengths(sfc, intensity).0,
        r.0 < 6,
        forall|k: int| 0 <= k < 4 ==> #[trigger] r.1[k] == lsf_lengths(sfc, intensity).1[k],
        forall|k: int| 0 <= k < 4 ==> #[trigger] r.1[k] <= 5,
{
    if intensity {
        let s = (sfc as u32) >> 1;
        assert(s <= 255) by (bit_vector)
            requires
                s == (sfc as u32) >> 1,
                sfc <= 511,
        ;
        if s <= 179 {
            (0, [s / 36, (s % 36) / 6, (s % 36) % 6, 0])
        } else if s <= 243 {
            let t = s - 180;
            assert((t % 64) >> 4 <= 3 && (t % 16) >> 2 <= 3) by (bit_vector);
            (1, [(t % 64) >> 4, (t % 16) >> 2, t % 4, 0])
        } else {
            (2, [(s - 244) / 3, (s - 244) % 3, 0, 0])
        }
    } else {
        let s = sfc as u32;
        if s <= 399 {
            assert((s >> 4) / 5 <= 4 && (s % 16) >> 2 <= 3) by (bit_vector)
                requires
                    s <= 399,
            ;
            (3, [(s >> 4) / 5, (s >> 4) % 5, (s % 16) >> 2, s % 4])
        } else if s <= 499 {
            let t = s - 400;
            assert((t >> 2) / 5 <= 4) by (bit_vector)
                requires
                    t <= 99,
            ;
            (4, [(t >> 2) / 5, (t >> 2) % 5, t % 4, 0])
        } else {
            (5, [(s - 500) / 3, (s - 500) % 3, 0, 0])
        }
    }
}

proof fn lemma_lsf_width(row: nat, bi: nat, slens: Seq<nat>, k: nat, i: int)
    requires
        k < 4,
        nsfb_sum(row, bi, k) <= i < nsfb_sum(row, bi, k + 1),
    ensures
        lsf_width(i, row, bi, slens) == slens[k as int],
        i < nsfb_sum(row, bi, 4),
{
    reveal_with_fuel(nsfb_sum, 5);
}

proof fn lemma_nsfb_total(row: nat, bi: nat)
    requires
        row < 6,
        bi < 3,
    ensures
        nsfb_sum(row, bi, 4) <= 36,
{
    reveal_with_fuel(nsfb_sum, 5);
}

/// Reads the scale factors for a single channel in a granule in a MPEG version 2 frame, and
/// returns the number of bits read.
pub fn l3_read_scale_factors_lsf(
    bs: &mut BitStreamLtr,
    is_intensity_stereo: bool,
    side_info: &GranuleChannelSideInfoL3,
    channel: &mut MainDataGranuleChannel,
) -> (r: Result<usize, Error>)
    requires
        old(bs).wf(),
        side_info.scalefac_compress <= 511,
    ensures
        final(bs).data() == old(bs).data(),
        ({
            let d = old(bs).data();
            let p = old(bs).bit_pos();
            let w = lsf_widths(*side_info, is_intensity_stereo);
            let n = width_offset(w, w.len() as int);
            if p + n > 8 * d.len() {
                &&& r == Err::<usize, Error>(eof())
                &&& *final(channel) == *old(channel)
            } else {
                &&& r == Ok::<usize, Error>(n as usize)
                &&& final(bs).wf()
                &&& final(bs).bit_pos() == p + n
                &&& final(channel).scalefacs@ == read_values(d, p, w) + old(channel).scalefacs@.skip(
                    w.len() as int,
                )
            }
        }),
{
    let ghost d = bs.data();
    let ghost p = bs.bit_pos();
    let ghost w = lsf_widths(*side_info, is_intensity_stereo);
    let ghost total = w.len() as int;
    let bi: usize = match side_info.block_type {
        BlockType::Short { is_mixed: true } => 2,
        BlockType::Short { is_mixed: false } => 1,
        _ => 0,
    };
    let (row, slens) = lsf_lengths_of(side_info.scalefac_compress, is_intensity_stereo);
    proof {
        lemma_nsfb_total(row as nat, bi as nat);
        lemma_width_offset_mono(w, 0, total);
        lemma2_to64();
    }
    let mut sf = channel.scalefacs;
    let mut start: usize = 0;
    let mut bits_read: usize = 0;
    let mut k: usize = 0;
    while k < 4
        invariant
            bs.wf(),
            bs.data() == d,
            d == old(bs).data(),
            p == old(bs).bit_pos(),
            w == lsf_widths(*side_info, is_intensity_stereo),
            total == w.len(),
            total <= 36,
            row < 6,
            bi < 3,
            row == lsf_lengths(side_info.scalefac_compress, is_intensity_stereo).0,
            bi == block_index(side_info.block_type),
            forall|m: int| 0 <= m < 4 ==> #[trigger] slens[m] == lsf_lengths(side_info.scalefac_compress, is_intensity_stereo).1[m],
            forall|m: int| 0 <= m < 4 ==> #[trigger] slens[m] <= 5,
            k <= 4,
            start == nsfb_sum(row as nat, bi as nat, k as nat),
            bs.bit_pos() == p + width_offset(w, start as int),
            bits_read == width_offset(w, start as int),
            bits_read <= 5 * start,
            forall|m: int| 0 <= m < start ==> #[trigger] sf@[m] == read_values(d, p, w)[m],
            forall|m: int| start <= m < 36 ==> #[trigger] sf@[m] == old(channel).scalefacs@[m],
            *channel == *old(channel),
        decreases 4 - k,
    {
        let n = nsfb_of(row, bi, k);
        let slen = slens[k];
        proof {
            reveal_with_fuel(nsfb_sum, 5);
        }
        let mut j: usize = 0;
        while j < n
            invariant
                bs.wf(),
                bs.data() == d,
                d == old(bs).data(),
                p == old(bs).bit_pos(),
                w == lsf_widths(*side_info, is_intensity_stereo),
                total == w.len(),
                total <= 36,
                row < 6,
                bi < 3,
                k < 4,
                row == lsf_lengths(side_info.scalefac_compress, is_intensity_stereo).0,
                bi == block_index(side_info.block_type),
                slen == lsf_lengths(side_info.scalefac_compress, is_intensity_stereo).1[k as int],
                slen <= 5,
                n == nsfb(row as nat, bi as nat, k as nat),
                start == nsfb_sum(row as nat, bi as nat, k as nat),
                start + n == nsfb_sum(row as nat, bi as nat, (k + 1) as nat),
                start + n <= total,
                j <= n,
                bs.bit_pos() == p + width_offset(w, start + j),
                bits_read == width_offset(w, start + j),
                bits_read <= 5 * (start + j),
                forall|m: int| 0 <= m < start + j ==> #[trigger] sf@[m] == read_values(d, p, w)[m],
                forall|m: int| start + j <= m < 36 ==> #[trigger] sf@[m] == old(channel).scalefacs@[m],
                *channel == *old(channel),
            decreases n - j,
        {
            let i = start + j;
            proof {
                let (row_s, slens_s) = lsf_lengths(side_info.scalefac_compress, is_intensity_stereo);
                lemma_lsf_width(row as nat, bi as nat, slens_s, k as nat, i as int);
            }
            assert(w[i as int] == slen);
            let v = match bs.read_bits_leq32(slen) {
                Ok(v) => v,
                Err(e) => {
                    proof {
                        lemma_width_offset_mono(w, i + 1, total);
                    }
                    return Err(e);
                },
            };
            proof {
                lemma_bits_val_bound(d, p + width_offset(w, i as int), slen as nat);
                vstd::arithmetic::power2::lemma_pow2_strictly_increases(slen as nat, 8);
            }
            let ghost before = sf@;
            sf[i] = v as u8;
            proof {
                assert(sf@ == before.update(i as int, v as u8));
            }
            bits_read = bits_read + slen as usize;
            j = j + 1;
        }
        start = start + n;
        k = k + 1;
    }
    proof {
        reveal_with_fuel(nsfb_sum, 5);
        assert(start == total);
        bs.lemma_bit_pos_bound();
        assert(sf@ =~= read_values(d, p, w) + old(channel).scalefacs@.skip(total));
    }
    channel.scalefacs = sf;
    Ok(bits_read)
}

/// The lengths of the scale factors of the first and second band ranges of an MPEG version 1
/// granule channel, indexed by `scalefac_compress`.
pub open spec fn slen_pair(sfc: u16) -> (nat, nat) {
    seq![(0nat, 0nat), (0, 1), (0, 2), (0, 3), (3, 0), (1, 1), (1, 2), (1, 3), (2, 1), (2, 2), (2, 3), (3, 1), (3, 2), (3, 3), (4, 2), (4, 3)][sfc as int]
}

fn slen_pair_of(sfc: u16) -> (r: (u32, u32))
    requires
        sfc < 16,
    ensures
        r.0 == slen_pair(sfc).0,
        r.1 == slen_pair(sfc).1,
        r.0 <= 4,
        r.1 <= 3,
{
    match sfc {
        0 => (0, 0),
        1 => (0, 1),
        2 => (0, 2),
        3 => (0, 3),
        4 => (3, 0),
        5 => (1, 1),
        6 => (1, 2),
        7 => (1, 3),
        8 => (2, 1),
        9 => (2, 2),
        10 => (2, 3),
        11 => (3, 1),
        12 => (3, 2),
        13 => (3, 3),
        14 => (4, 2),
        _ => (4, 3),
    }
}

/// The band range (0 to 3) of long block scale factor `i` (0 to 20): bands [0..6], [6..11],
/// [11..16] and [16..21].
pub open spec fn band_range(i: int) -> int {
    if i < 6 {
        0
    } else if i < 11 {
        1
    } else if i < 16 {
        2
    } else {
        3
    }
}

/// Whether scale factor `i` of an MPEG version 1 granule channel is copied from the first
/// granule: the scale factor selection bit of its band range, in the row of granule `gr`, is set.
pub open spec fn v1_copied(i: int, g: GranuleChannelSideInfoL3, gr: nat, sel: [bool; 4]) -> bool {
    let (s1, s2) = slen_pair(g.scalefac_compress);
    match g.block_type {
        BlockType::Short { .. } => false,
        _ => i < 21 && gr > 0 && sel[band_range(i)] && (if band_range(i) < 2 {
            s1
        } else {
            s2
        }) > 0,
    }
}

/// The width of scale factor `i` of an MPEG version 1 granule channel, 0 for one that is not
/// read.
pub open spec fn v1_width(i: int, g: GranuleChannelSideInfoL3, gr: nat, sel: [bool; 4]) -> nat {
    let (s1, s2) = slen_pair(g.scalefac_compress);
    match g.block_type {
        BlockType::Short { is_mixed } => {
            // Short or mixed windows: a first partition of slen1 bit scale factors (long bands
            // 0..8 and short bands 3..6 of a mixed block, or short bands 0..6), then 18 scale
            // factors of slen2 bits.
            let n: int = if is_mixed {
                17
            } else {
                18
            };
            if i < n {
                s1
            } else if i < n + 18 {
                s2
            } else {
                0
            }
        },
        _ => if i < 21 && !v1_copied(i, g, gr, sel) {
            if band_range(i) < 2 {
                s1
            } else {
                s2
            }
        } else {
            0
        },
    }
}

/// The widths of the 36 scale factors of an MPEG version 1 granule channel.
pub open spec fn v1_widths(g: GranuleChannelSideInfoL3, gr: nat, sel: [bool; 4]) -> Seq<nat> {
    Seq::new(36, |i: int| v1_width(i, g, gr, sel))
}

/// The scale factors of an MPEG version 1 granule channel read at bit `p` of `d`: those of width
/// 0 are copied from the first granule's `first` or kept from `prev`.
pub open spec fn v1_scalefacs(
    d: Seq<u8>,
    p: int,
    g: GranuleChannelSideInfoL3,
    gr: nat,
    sel: [bool; 4],
    first: Seq<u8>,
    prev: Seq<u8>,
) -> Seq<u8> {
    let w = v1_widths(g, gr, sel);
    Seq::new(
        36,
        |i: int| if w[i] > 0 {
            bits_val(d, p + width_offset(w, i), w[i]) as u8
        } else if v1_copied(i, g, gr, sel) {
            first[i]
        } else {
            prev[i]
        },
    )
}

fn v1_width_of(i: usize, g: &GranuleChannelSideInfoL3, gr: usize, sel: &[bool; 4]) -> (r: (u32, bool))
    requires
        i < 36,
        g.scalefac_compress < 16,
    ensures
        r.0 == v1_width(i as int, *g, gr as nat, *sel),
        r.1 == v1_copied(i as int, *g, gr as nat, *sel),
        r.0 <= 4,
{
    let (slen1, slen2) = slen_pair_of(g.scalefac_compress);
    match g.block_type {
        BlockType::Short { is_mixed } => {
            let n: usize = if is_mixed {
                17
            } else {
                18
            };
            if i < n {
                (slen1, false)
            } else if i < n + 18 {
                (slen2, false)
            } else {
                (0, false)
            }
        },
        _ => {
            if i >= 21 {
                return (0, false);
            }
            let band: usize = if i < 6 {
                0
            } else if i < 11 {
                1
            } else if i < 16 {
                2
            } else {
                3
            };
            let slen = if band < 2 {
                slen1
            } else {
                slen2
            };
            if slen > 0 && gr > 0 && sel[band] {
                (0, true)
            } else {
                (slen, false)
            }
        },
    }
}

/// Reads the scale factors for a single channel in a granule in a MPEG version 1 frame, and
/// returns the number of bits read.
pub fn l3_read_scale_factors(
    bs: &mut BitStreamLtr,
    gr: usize,
    ch: usize,
    side_info: &SideInfoL3,
    main_data: &mut MainData,
) -> (r: Result<usize, Error>)
    requires
        old(bs).wf(),
        gr < 2,
        ch < 2,
        gr < side_info.granules.len(),
        ch < side_info.granules[gr as int].channels.len(),
        side_info.granules[gr as int].channels[ch as int].scalefac_compress < 16,
    ensures
        final(bs).data() == old(bs).data(),
        ({
            let d = old(bs).data();
            let p = old(bs).bit_pos();
            let g = side_info.granules[gr as int].channels[ch as int];
            let sel = side_info.scfsi[gr as int];
            let w = v1_widths(g, gr as nat, sel);
            let n = width_offset(w, 36);
            if p + n > 8 * d.len() {
                &&& r == Err::<usize, Error>(eof())
                &&& *final(main_data) == *old(main_data)
            } else {
                &&& r == Ok::<usize, Error>(n as usize)
                &&& final(bs).wf()
                &&& final(bs).bit_pos() == p + n
                &&& final(main_data).granules[gr as int].channels[ch as int].scalefacs@ == v1_scalefacs(
                    d,
                    p,
                    g,
                    gr as nat,
                    sel,
                    old(main_data).granules[0].channels[ch as int].scalefacs@,
                    old(main_data).granules[gr as int].channels[ch as int].scalefacs@,
                )
                &&& forall|a: int, c: int|
                    0 <= a < 2 && 0 <= c < 2 && (a != gr || c != ch)
                        ==> #[trigger] final(main_data).granules[a].channels[c]
                        == old(main_data).granules[a].channels[c]
            }
        }),
{
    let ghost d = bs.data();
    let ghost p = bs.bit_pos();
    let g = &side_info.granules[gr].channels[ch];
    let sel = &side_info.scfsi[gr];
    let ghost w = v1_widths(*g, gr as nat, *sel);
    let first = main_data.granules[0].channels[ch].scalefacs;
    let mut sf = main_data.granules[gr].channels[ch].scalefacs;
    let ghost prev = sf@;
    let ghost want = v1_scalefacs(d, p, *g, gr as nat, *sel, first@, prev);
    proof {
        lemma_width_offset_mono(w, 0, 36);
        lemma2_to64();
    }
    let mut bits_read: usize = 0;
    let mut i: usize = 0;
    while i < 36
        invariant
            bs.wf(),
            bs.data() == d,
            d == old(bs).data(),
            p == old(bs).bit_pos(),
            g.scalefac_compress < 16,
            w == v1_widths(*g, gr as nat, *sel),
            want == v1_scalefacs(d, p, *g, gr as nat, *sel, first@, prev),
            i <= 36,
            bs.bit_pos() == p + width_offset(w, i as int),
            bits_read == width_offset(w, i as int),
            bits_read <= 4 * i,
            forall|m: int| 0 <= m < i ==> #[trigger] sf@[m] == want[m],
            forall|m: int| i <= m < 36 ==> #[trigger] sf@[m] == prev[m],
            *main_data == *old(main_data),
            *g == side_info.granules[gr as int].channels[ch as int],
            *sel == side_info.scfsi[gr as int],
            first == old(main_data).granules[0].channels[ch as int].scalefacs,
            prev == old(main_data).granules[gr as int].channels[ch as int].scalefacs@,
        decreases 36 - i,
    {
        let (width, copied) = v1_width_of(i, g, gr, sel);
        assert(w[i as int] == width);
        if width > 0 {
            let v = match bs.read_bits_leq32(width) {
                Ok(v) => v,
                Err(e) => {
                    proof {
                        assert(width_offset(w, i + 1) == width_offset(w, i as int) + w[i as int]);
                        lemma_width_offset_mono(w, i + 1, 36);
                        assert(*main_data == *old(main_data));
                    }
                    return Err(e);
                },
            };
            proof {
                lemma_bits_val_bound(d, p + width_offset(w, i as int), width as nat);
                vstd::arithmetic::power2::lemma_pow2_strictly_increases(width as nat, 8);
            }
            sf[i] = v as u8;
            bits_read = bits_read + width as usize;
        } else if copied {
            sf[i] = first[i];
        }
        i = i + 1;
    }
    proof {
        bs.lemma_bit_pos_bound();
        assert(sf@ =~= want);
    }
    let mut granule = main_data.granules[gr];
    let mut channel = granule.channels[ch];
    channel.scalefacs = sf;
    granule.channels[ch] = channel;
    main_data.granules[gr] = granule;
    Ok(bits_read)
}

} // verus!
