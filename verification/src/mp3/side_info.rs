//! MPEG audio layer 3 side information.

use vstd::prelude::*;
use vstd::arithmetic::power2::{pow2, lemma2_to64};
use crate::errors::{Error, decode_error};
use crate::io::{BitStreamLtr, eof};
use crate::io::bits_model::{bit_at, bits_val, lemma_bits_val_bound};
use crate::mp3::header::{FrameHeader, MpegVersion, Channels};

verus! {

/// The window of a granule.
#[derive(Copy, Clone, Debug, PartialEq, Eq, Structural)]
pub enum BlockType {
    // Default case when window switching is off. Also the normal case when window switching is
    // on. Granule contains one long block.
    Long,
    Start,
    Short { is_mixed: bool },
    End,
}

/// The side information of one channel of a granule.
#[derive(Copy, Clone, Debug)]
pub struct GranuleChannelSideInfoL3 {
    /// Nums of bits used for scale factors (part2), and Huffman encoded data (part3).
    pub part2_3_length: u16,
    /// Big values (sum of region0, region1, region2) partition size.
    pub big_values: u16,
    /// Quantization step size.
    pub global_gain: u16,
    /// Index into the MPEG version 1 scale factor length table, or in MPEG version 2 the coded
    /// lengths of the scale factors.
    pub scalefac_compress: u16,
    /// Indicates the type of window for the granule.
    pub block_type: BlockType,
    pub subblock_gain: [u8; 3],
    pub table_select: [u8; 3],
    pub region0_count: u8,
    pub region1_count: u8,
    pub preflag: bool,
    pub scalefac_scale: bool,
    pub count1table_select: bool,
}

/// The side information of a granule: one entry per channel.
#[derive(Clone, Debug)]
pub struct GranuleSideInfoL3 {
    pub channels: Vec<GranuleChannelSideInfoL3>,
}

/// The side information of a layer 3 frame.
#[derive(Clone, Debug)]
pub struct SideInfoL3 {
    /// The byte offset into the bit resevoir indicating the location of the first bit of
    /// main_data. If 0, main_data begins after the side_info of this frame.
    pub main_data_begin: u16,
    /// Scale factor selector information, per channel: whether each of the 4 groups of bands
    /// [0-5, 6-10, 11-15, 16-20] reuses the scale factors of the first granule.
    pub scfsi: [[bool; 4]; 2],
    /// The granules of the frame: two for MPEG version 1, one otherwise.
    pub granules: Vec<GranuleSideInfoL3>,
    /// The size of the side_info.
    pub size: usize,
}

/// The width of the `scalefac_compress` field.
pub open spec fn sfc_width(mpeg1: bool) -> nat {
    if mpeg1 {
        4
    } else {
        9
    }
}

/// Where the side information of a granule channel read at bit `p` of `d` ends, or the error the
/// read fails with.
pub open spec fn granule_channel_status(d: Seq<u8>, p: int, mpeg1: bool) -> Result<int, Error> {
    let n = 8 * d.len();
    let tail: int = if mpeg1 {
        3
    } else {
        2
    };
    let q = p + 29 + sfc_width(mpeg1);
    if p + 21 > n {
        Err(eof())
    } else if bits_val(d, p + 12, 9) > 288 {
        Err(Error::DecodeError("Granule big_values > 288."))
    } else if q + 1 > n {
        Err(eof())
    } else if bit_at(d, q) == 1 {
        if q + 4 > n {
            Err(eof())
        } else if bits_val(d, q + 1, 2) == 0 {
            Err(Error::DecodeError("Invalid block_type."))
        } else if q + 23 + tail > n {
            Err(eof())
        } else {
            Ok(q + 23 + tail)
        }
    } else if q + 23 + tail > n {
        Err(eof())
    } else {
        Ok(q + 23 + tail)
    }
}

/// The fields of the side information of a granule channel read at bit `p` of `d`.
pub open spec fn granule_channel_fields(g: GranuleChannelSideInfoL3, d: Seq<u8>, p: int, mpeg1: bool) -> bool {
    let q = p + 29 + sfc_width(mpeg1);
    let r = q + 1;
    let t = r + 22;
    let t2 = if mpeg1 {
        t + 1
    } else {
        t
    };
    &&& g.part2_3_length == bits_val(d, p, 12)
    &&& g.big_values == bits_val(d, p + 12, 9)
    &&& g.global_gain == bits_val(d, p + 21, 8)
    &&& g.scalefac_compress == bits_val(d, p + 29, sfc_width(mpeg1))
    &&& if bit_at(d, q) == 1 {
        switched_window_fields(
            (g.block_type, g.table_select, g.subblock_gain, g.region0_count, g.region1_count),
            d,
            r,
        )
    } else {
        long_window_fields(
            (g.block_type, g.table_select, g.subblock_gain, g.region0_count, g.region1_count),
            d,
            r,
        )
    }
    &&& g.preflag == if mpeg1 {
        bit_at(d, t) == 1
    } else {
        g.scalefac_compress >= 500
    }
    &&& g.scalefac_scale == (bit_at(d, t2) == 1)
    &&& g.count1table_select == (bit_at(d, t2 + 1) == 1)
}

proof fn lemma_small_fields(d: Seq<u8>, p: int)
    ensures
        bits_val(d, p, 2) < 4,
        bits_val(d, p, 3) < 8,
        bits_val(d, p, 4) < 16,
        bits_val(d, p, 5) < 32,
        bits_val(d, p, 8) < 256,
        bits_val(d, p, 9) < 512,
        bits_val(d, p, 12) < 4096,
{
    lemma2_to64();
    lemma_bits_val_bound(d, p, 2);
    lemma_bits_val_bound(d, p, 3);
    lemma_bits_val_bound(d, p, 4);
    lemma_bits_val_bound(d, p, 5);
    lemma_bits_val_bound(d, p, 8);
    lemma_bits_val_bound(d, p, 9);
    lemma_bits_val_bound(d, p, 12);
}

/// The window fields of a granule channel that switches windows, read at bit `r`.
pub open spec fn switched_window_fields(
    f: (BlockType, [u8; 3], [u8; 3], u8, u8),
    d: Seq<u8>,
    r: int,
) -> bool {
    let enc = bits_val(d, r, 2);
    &&& f.0 == if enc == 1 {
        BlockType::Start
    } else if enc == 2 {
        BlockType::Short { is_mixed: bit_at(d, r + 2) == 1 }
    } else {
        BlockType::End
    }
    &&& f.1@ == seq![bits_val(d, r + 3, 5) as u8, bits_val(d, r + 8, 5) as u8, 0u8]
    &&& f.2@ == seq![
        bits_val(d, r + 13, 3) as u8,
        bits_val(d, r + 16, 3) as u8,
        bits_val(d, r + 19, 3) as u8,
    ]
    &&& f.3 == if f.0 == (BlockType::Short { is_mixed: false }) {
        8u8
    } else {
        7u8
    }
    &&& f.4 == 20 - f.3
}

/// The window fields of a granule channel with a long window, read at bit `r`.
pub open spec fn long_window_fields(f: (BlockType, [u8; 3], [u8; 3], u8, u8), d: Seq<u8>, r: int) -> bool {
    &&& f.0 == BlockType::Long
    &&& f.1@ == seq![bits_val(d, r, 5) as u8, bits_val(d, r + 5, 5) as u8, bits_val(d, r + 10, 5) as u8]
    &&& f.2@ == seq![0u8, 0u8, 0u8]
    &&& f.3 == bits_val(d, r + 15, 4)
    &&& f.4 == bits_val(d, r + 19, 3)
}

fn read_switched_window(bs: &mut BitStreamLtr) -> (r: Result<(BlockType, [u8; 3], [u8; 3], u8, u8), Error>)
    requires
        old(bs).wf(),
    ensures
        final(bs).data() == old(bs).data(),
        ({
            let d = old(bs).data();
            let p = old(bs).bit_pos();
            if p + 3 > 8 * d.len() {
                r == Err::<(BlockType, [u8; 3], [u8; 3], u8, u8), Error>(eof())
            } else if bits_val(d, p, 2) == 0 {
                r == Err::<(BlockType, [u8; 3], [u8; 3], u8, u8), Error>(
                    Error::DecodeError("Invalid block_type."),
                )
            } else if p + 22 > 8 * d.len() {
                r == Err::<(BlockType, [u8; 3], [u8; 3], u8, u8), Error>(eof())
            } else {
                r matches Ok(f) && switched_window_fields(f, d, p) && final(bs).wf()
                    && final(bs).bit_pos() == p + 22
            }
        }),
{
    let ghost d = bs.data();
    let ghost r0 = bs.bit_pos();
    proof {
        lemma_small_fields(d, r0);
        lemma_small_fields(d, r0 + 3);
        lemma_small_fields(d, r0 + 8);
        lemma_small_fields(d, r0 + 13);
        lemma_small_fields(d, r0 + 16);
        lemma_small_fields(d, r0 + 19);
    }
    let block_type_enc = bs.read_bits_leq32(2)?;
    let is_mixed = bs.read_bit()?;
    let block_type = match block_type_enc {
        0 => return decode_error("Invalid block_type."),
        1 => BlockType::Start,
        2 => BlockType::Short { is_mixed },
        _ => BlockType::End,
    };
    let t0 = bs.read_bits_leq32(5)? as u8;
    let t1 = bs.read_bits_leq32(5)? as u8;
    let g0 = bs.read_bits_leq32(3)? as u8;
    let g1 = bs.read_bits_leq32(3)? as u8;
    let g2 = bs.read_bits_leq32(3)? as u8;
    let region0_count: u8 = match block_type {
        BlockType::Short { is_mixed: false } => 8,
        _ => 7,
    };
    let table_select = [t0, t1, 0u8];
    let subblock_gain = [g0, g1, g2];
    assert(table_select@ =~= seq![t0, t1, 0u8]);
    assert(subblock_gain@ =~= seq![g0, g1, g2]);
    Ok((block_type, table_select, subblock_gain, region0_count, 20 - region0_count))
}

fn read_long_window(bs: &mut BitStreamLtr) -> (r: Result<(BlockType, [u8; 3], [u8; 3], u8, u8), Error>)
    requires
        old(bs).wf(),
    ensures
        final(bs).data() == old(bs).data(),
        ({
            let d = old(bs).data();
            let p = old(bs).bit_pos();
            if p + 22 > 8 * d.len() {
                r == Err::<(BlockType, [u8; 3], [u8; 3], u8, u8), Error>(eof())
            } else {
                r matches Ok(f) && long_window_fields(f, d, p) && final(bs).wf()
                    && final(bs).bit_pos() == p + 22
            }
        }),
{
    let ghost d = bs.data();
    let ghost r0 = bs.bit_pos();
    proof {
        lemma_small_fields(d, r0);
        lemma_small_fields(d, r0 + 5);
        lemma_small_fields(d, r0 + 10);
        lemma_small_fields(d, r0 + 15);
        lemma_small_fields(d, r0 + 19);
    }
    let t0 = bs.read_bits_leq32(5)? as u8;
    let t1 = bs.read_bits_leq32(5)? as u8;
    let t2 = bs.read_bits_leq32(5)? as u8;
    let region0_count = bs.read_bits_leq32(4)? as u8;
    let region1_count = bs.read_bits_leq32(3)? as u8;
    let table_select = [t0, t1, t2];
    let subblock_gain = [0u8, 0u8, 0u8];
    assert(table_select@ =~= seq![t0, t1, t2]);
    assert(subblock_gain@ =~= seq![0u8, 0u8, 0u8]);
    Ok((BlockType::Long, table_select, subblock_gain, region0_count, region1_count))
}

/// Reads the side information of one channel of a granule.
pub fn read_granule_channel_side_info_l3(bs: &mut BitStreamLtr, header: &FrameHeader) -> (r: Result<
    GranuleChannelSideInfoL3,
    Error,
>)
    requires
        old(bs).wf(),
    ensures
        final(bs).data() == old(bs).data(),
        ({
            let d = old(bs).data();
            let p = old(bs).bit_pos();
            let mpeg1 = header.version == MpegVersion::Mpeg1;
            match granule_channel_status(d, p, mpeg1) {
                Ok(end) => r matches Ok(g) && granule_channel_fields(g, d, p, mpeg1) && final(bs).wf()
                    && final(bs).bit_pos() == end,
                Err(e) => r == Err::<GranuleChannelSideInfoL3, Error>(e),
            }
        }),
{
    let ghost d = bs.data();
    let ghost p = bs.bit_pos();
    let mpeg1 = header.is_mpeg1();
    proof {
        lemma_small_fields(d, p);
        lemma_small_fields(d, p + 12);
        lemma_small_fields(d, p + 21);
        lemma_small_fields(d, p + 29);
    }
    let part2_3_length = bs.read_bits_leq32(12)? as u16;
    let big_values = bs.read_bits_leq32(9)? as u16;
    if big_values > 288 {
        return decode_error("Granule big_values > 288.");
    }
    let global_gain = bs.read_bits_leq32(8)? as u16;
    let scalefac_compress = if mpeg1 {
        bs.read_bits_leq32(4)
    } else {
        bs.read_bits_leq32(9)
    }? as u16;
    let window_switching = bs.read_bit()?;
    let f = if window_switching {
        read_switched_window(bs)?
    } else {
        read_long_window(bs)?
    };
    let preflag = if mpeg1 {
        bs.read_bit()?
    } else {
        scalefac_compress >= 500
    };
    let scalefac_scale = bs.read_bit()?;
    let count1table_select = bs.read_bit()?;
    Ok(
        GranuleChannelSideInfoL3 {
            part2_3_length,
            big_values,
            global_gain,
            scalefac_compress,
            block_type: f.0,
            subblock_gain: f.2,
            table_select: f.1,
            region0_count: f.3,
            region1_count: f.4,
            preflag,
            scalefac_scale,
            count1table_select,
        },
    )
}

/// Where the side information of `k` granule channels read from bit `p` of `d` ends, or the
/// error the read fails with.
pub open spec fn side_info_channels(d: Seq<u8>, p: int, mpeg1: bool, k: nat) -> Result<int, Error>
    decreases k,
{
    if k == 0 {
        Ok(p)
    } else {
        match side_info_channels(d, p, mpeg1, (k - 1) as nat) {
            Err(e) => Err(e),
            Ok(q) => granule_channel_status(d, q, mpeg1),
        }
    }
}

proof fn lemma_channels_err(d: Seq<u8>, p: int, mpeg1: bool, k: nat, total: nat)
    requires
        k <= total,
        side_info_channels(d, p, mpeg1, k) is Err,
    ensures
        side_info_channels(d, p, mpeg1, total) == side_info_channels(d, p, mpeg1, k),
    decreases total - k,
{
    if k < total {
        lemma_channels_err(d, p, mpeg1, k + 1, total);
    }
}

/// The number of bits of a layer 3 side information before its granules: the offset of the main
/// data, private bits, and for MPEG version 1 the scale factor selection bits of each channel.
pub open spec fn side_info_head_bits(mpeg1: bool, mono: bool) -> int {
    if mpeg1 {
        if mono {
            18
        } else {
            20
        }
    } else if mono {
        9
    } else {
        10
    }
}

/// Where the side information of a frame read at bit `p` of `d` ends, or the error the read
/// fails with.
pub open spec fn side_info_status(d: Seq<u8>, p: int, h: FrameHeader) -> Result<int, Error> {
    let mpeg1 = h.version == MpegVersion::Mpeg1;
    let mono = h.channels is Mono;
    let g0 = p + side_info_head_bits(mpeg1, mono);
    let total: nat = (if mpeg1 { 2nat } else { 1nat }) * (if mono { 1nat } else { 2nat });
    if g0 > 8 * d.len() {
        Err(eof())
    } else {
        side_info_channels(d, g0, mpeg1, total)
    }
}

/// The fields of the side information of a frame read at bit `p` of `d`.
pub open spec fn side_info_fields(s: SideInfoL3, d: Seq<u8>, p: int, h: FrameHeader) -> bool {
    let mpeg1 = h.version == MpegVersion::Mpeg1;
    let mono = h.channels is Mono;
    let nch: int = if mono { 1 } else { 2 };
    let ng: int = if mpeg1 { 2 } else { 1 };
    let g0 = p + side_info_head_bits(mpeg1, mono);
    let scfsi_at = p + if mono { 14int } else { 12int };
    &&& s.main_data_begin == bits_val(d, p, if mpeg1 { 9nat } else { 8nat })
    &&& forall|c: int, i: int|
        0 <= c < 2 && 0 <= i < 4 ==> #[trigger] s.scfsi[c][i] == (mpeg1 && c < nch && bit_at(
            d,
            scfsi_at + 4 * c + i,
        ) == 1)
    &&& s.size == if mpeg1 {
        if mono {
            17usize
        } else {
            32usize
        }
    } else if mono {
        9usize
    } else {
        17usize
    }
    &&& s.granules.len() == ng
    &&& forall|gi: int| 0 <= gi < ng ==> #[trigger] s.granules[gi].channels.len() == nch
    &&& forall|gi: int, c: int|
        0 <= gi < ng && 0 <= c < nch ==> granule_channel_fields(
            #[trigger] s.granules[gi].channels[c],
            d,
            side_info_channels(d, g0, mpeg1, (gi * nch + c) as nat).unwrap(),
            mpeg1,
        )
}

proof fn lemma_side_info_err(d: Seq<u8>, p: int, h: FrameHeader, k: nat, e: Error)
    requires
        p + side_info_head_bits(h.version == MpegVersion::Mpeg1, h.channels is Mono) <= 8 * d.len(),
        side_info_channels(
            d,
            p + side_info_head_bits(h.version == MpegVersion::Mpeg1, h.channels is Mono),
            h.version == MpegVersion::Mpeg1,
            k,
        ) == Err::<int, Error>(e),
        k <= (if h.version == MpegVersion::Mpeg1 { 2nat } else { 1nat }) * (if h.channels is Mono {
            1nat
        } else {
            2nat
        }),
    ensures
        side_info_status(d, p, h) == Err::<int, Error>(e),
{
    let mpeg1 = h.version == MpegVersion::Mpeg1;
    let total: nat = (if mpeg1 { 2nat } else { 1nat }) * (if h.channels is Mono { 1nat } else { 2nat });
    lemma_channels_err(d, p + side_info_head_bits(mpeg1, h.channels is Mono), mpeg1, k, total);
}

/// The fields of a side information head read at bit `p` of `d`: the offset of the main data
/// and the scale factor selection bits.
pub open spec fn side_info_head_fields(f: (u16, [[bool; 4]; 2]), d: Seq<u8>, p: int, mpeg1: bool, mono: bool) -> bool {
    let nch: int = if mono { 1 } else { 2 };
    let scfsi_at = p + if mono { 14int } else { 12int };
    &&& f.0 == bits_val(d, p, if mpeg1 { 9nat } else { 8nat })
    &&& forall|c: int, i: int|
        0 <= c < 2 && 0 <= i < 4 ==> #[trigger] f.1[c][i] == (mpeg1 && c < nch && bit_at(
            d,
            scfsi_at + 4 * c + i,
        ) == 1)
}

fn read_scfsi(bs: &mut BitStreamLtr, mono: bool) -> (r: Result<[[bool; 4]; 2], Error>)
    requires
        old(bs).wf(),
    ensures
        final(bs).data() == old(bs).data(),
        ({
            let d = old(bs).data();
            let p = old(bs).bit_pos();
            let n: int = if mono { 4 } else { 8 };
            if p + n > 8 * d.len() {
                r == Err::<[[bool; 4]; 2], Error>(eof())
            } else {
                &&& r matches Ok(s) && forall|c: int, i: int|
                    0 <= c < 2 && 0 <= i < 4 ==> #[trigger] s[c][i] == (4 * c + i < n && bit_at(
                        d,
                        p + 4 * c + i,
                    ) == 1)
                &&& final(bs).wf()
                &&& final(bs).bit_pos() == p + n
            }
        }),
{
    let s0 = bs.read_bit()?;
    let s1 = bs.read_bit()?;
    let s2 = bs.read_bit()?;
    let s3 = bs.read_bit()?;
    if !mono {
        let s4 = bs.read_bit()?;
        let s5 = bs.read_bit()?;
        let s6 = bs.read_bit()?;
        let s7 = bs.read_bit()?;
        Ok([[s0, s1, s2, s3], [s4, s5, s6, s7]])
    } else {
        Ok([[s0, s1, s2, s3], [false, false, false, false]])
    }
}

fn read_side_info_head(bs: &mut BitStreamLtr, mpeg1: bool, mono: bool) -> (r: Result<(u16, [[bool; 4]; 2]), Error>)
    requires
        old(bs).wf(),
    ensures
        final(bs).data() == old(bs).data(),
        ({
            let d = old(bs).data();
            let p = old(bs).bit_pos();
            if p + side_info_head_bits(mpeg1, mono) > 8 * d.len() {
                r == Err::<(u16, [[bool; 4]; 2]), Error>(eof())
            } else {
                r matches Ok(f) && side_info_head_fields(f, d, p, mpeg1, mono) && final(bs).wf()
                    && final(bs).bit_pos() == p + side_info_head_bits(mpeg1, mono)
            }
        }),
{
    let ghost d = bs.data();
    let ghost p = bs.bit_pos();
    proof {
        lemma2_to64();
        lemma_bits_val_bound(d, p, 9);
        lemma_bits_val_bound(d, p, 8);
    }
    if mpeg1 {
        // First 9 bits is main_data_begin.
        let main_data_begin = bs.read_bits_leq32(9)? as u16;
        // Next 3 (>1 channel) or 5 (1 channel) bits are private and should be ignored.
        if mono {
            bs.ignore_bits(5)?;
        } else {
            bs.ignore_bits(3)?;
        }
        // Next four (or 8, if more than one channel) are the SCFSI bits.
        let scfsi = read_scfsi(bs, mono)?;
        Ok((main_data_begin, scfsi))
    } else {
        // First 8 bits is main_data_begin.
        let main_data_begin = bs.read_bits_leq32(8)? as u16;
        // Next 1 (1 channel) or 2 (>1 channel) bits are private and should be ignored.
        if mono {
            bs.ignore_bits(1)?;
        } else {
            bs.ignore_bits(2)?;
        }
        let scfsi = [[false; 4]; 2];
        assert forall|c: int, i: int| 0 <= c < 2 && 0 <= i < 4 implies #[trigger] scfsi[c][i]
            == false by {}
        Ok((main_data_begin, scfsi))
    }
}

/// Reading `a + b` granule channels is reading `a`, then `b` more from where they end.
proof fn lemma_channels_split(d: Seq<u8>, p: int, mpeg1: bool, a: nat, b: nat)
    ensures
        side_info_channels(d, p, mpeg1, a + b) == match side_info_channels(d, p, mpeg1, a) {
            Ok(q) => side_info_channels(d, q, mpeg1, b),
            Err(e) => Err(e),
        },
    decreases b,
{
    if b > 0 {
        lemma_channels_split(d, p, mpeg1, a, (b - 1) as nat);
        assert((a + b - 1) as nat == a + (b - 1) as nat);
    }
}

/// Reads the side information of each channel of a granule.
pub fn read_granule_side_info_l3(bs: &mut BitStreamLtr, header: &FrameHeader) -> (r: Result<
    GranuleSideInfoL3,
    Error,
>)
    requires
        old(bs).wf(),
    ensures
        final(bs).data() == old(bs).data(),
        ({
            let d = old(bs).data();
            let p = old(bs).bit_pos();
            let mpeg1 = header.version == MpegVersion::Mpeg1;
            let nch: nat = if header.channels is Mono { 1 } else { 2 };
            match side_info_channels(d, p, mpeg1, nch) {
                Ok(end) => {
                    &&& r matches Ok(g)
                    &&& g.channels.len() == nch
                    &&& forall|c: int|
                        0 <= c < nch ==> granule_channel_fields(
                            #[trigger] g.channels@[c],
                            d,
                            side_info_channels(d, p, mpeg1, c as nat).unwrap(),
                            mpeg1,
                        )
                    &&& final(bs).wf()
                    &&& final(bs).bit_pos() == end
                },
                Err(e) => r == Err::<GranuleSideInfoL3, Error>(e),
            }
        }),
{
    let ghost d = bs.data();
    let ghost p = bs.bit_pos();
    let ghost mpeg1 = header.version == MpegVersion::Mpeg1;
    let n_channels = header.n_channels();
    let mut channels: Vec<GranuleChannelSideInfoL3> = Vec::new();
    let mut c: usize = 0;
    while c < n_channels
        invariant
            bs.wf(),
            bs.data() == d,
            d == old(bs).data(),
            p == old(bs).bit_pos(),
            mpeg1 == (header.version == MpegVersion::Mpeg1),
            n_channels == (if header.channels is Mono { 1usize } else { 2usize }),
            c <= n_channels,
            channels.len() == c,
            side_info_channels(d, p, mpeg1, c as nat) == Ok::<int, Error>(bs.bit_pos()),
            forall|j: int|
                0 <= j < c ==> granule_channel_fields(
                    #[trigger] channels@[j],
                    d,
                    side_info_channels(d, p, mpeg1, j as nat).unwrap(),
                    mpeg1,
                ),
        decreases n_channels - c,
    {
        let g = match read_granule_channel_side_info_l3(bs, header) {
            Ok(g) => g,
            Err(e) => {
                proof {
                    lemma_channels_err(d, p, mpeg1, (c + 1) as nat, n_channels as nat);
                }
                return Err(e);
            },
        };
        channels.push(g);
        c = c + 1;
    }
    Ok(GranuleSideInfoL3 { channels })
}

/// Reads the layer 3 side information of a frame.
pub fn l3_read_side_info(bs: &mut BitStreamLtr, header: &FrameHeader) -> (r: Result<SideInfoL3, Error>)
    requires
        old(bs).wf(),
    ensures
        final(bs).data() == old(bs).data(),
        match side_info_status(old(bs).data(), old(bs).bit_pos(), *header) {
            Ok(end) => r matches Ok(s) && side_info_fields(s, old(bs).data(), old(bs).bit_pos(), *header)
                && final(bs).wf() && final(bs).bit_pos() == end,
            Err(e) => r == Err::<SideInfoL3, Error>(e),
        },
{
    let ghost d = bs.data();
    let ghost p = bs.bit_pos();
    let mpeg1 = header.is_mpeg1();
    let n_channels = header.n_channels();
    let mono = n_channels == 1;
    let (main_data_begin, scfsi) = read_side_info_head(bs, mpeg1, mono)?;
    // The size of the side_info, fixed for layer 3.
    let size: usize = if mpeg1 {
        if mono {
            17
        } else {
            32
        }
    } else if mono {
        9
    } else {
        17
    };
    let ghost g0 = bs.bit_pos();
    proof {
        bs.lemma_bit_pos_bound();
    }
    let mut granules: Vec<GranuleSideInfoL3> = Vec::new();
    let ghost nch: nat = n_channels as nat;
    let ghost first = side_info_channels(d, g0, mpeg1, nch);
    proof {
        lemma_channels_split(d, g0, mpeg1, nch, nch);
    }
    // Read the granules: two for MPEG version 1, one otherwise.
    let g_0 = read_granule_side_info_l3(bs, header)?;
    granules.push(g_0);
    if mpeg1 {
        let g_1 = read_granule_side_info_l3(bs, header)?;
        granules.push(g_1);
    }
    proof {
        let ng: int = if mpeg1 { 2 } else { 1 };
        assert forall|gi: int| 0 <= gi < ng implies #[trigger] granules@[gi].channels.len() == nch by {}
        assert forall|gi: int, c: int| 0 <= gi < ng && 0 <= c < nch implies granule_channel_fields(
            #[trigger] granules@[gi].channels@[c],
            d,
            side_info_channels(d, g0, mpeg1, (gi * nch + c) as nat).unwrap(),
            mpeg1,
        ) by {
            if gi == 1 {
                lemma_channels_split(d, g0, mpeg1, nch, c as nat);
                assert((gi * nch + c) as nat == nch + c);
            } else {
                assert((gi * nch + c) as nat == c);
            }
        }
    }
    let s = SideInfoL3 { main_data_begin, scfsi, granules, size };
    Ok(s)
}

} // verus!
