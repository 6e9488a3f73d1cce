//! FLAC frame synchronization and frame header parsing.

use vstd::prelude::*;
use crate::errors::{Error, decode_error};
use crate::io::{BufStream, be_val, eof, utf8_decode_be_u64, utf8_number, utf8_continuations};
use crate::checksum::{Crc8Ccitt, crc8, lemma_crc8_append};
use vstd::arithmetic::power2::lemma2_to64;

verus! {

/// How the frames of a stream are numbered.
#[derive(Copy, Clone, Debug, PartialEq, Eq, Structural)]
pub enum BlockSequence {
    /// Variable block size streams number frames by their first sample.
    BySample(u64),
    /// Fixed block size streams number frames by their index.
    ByFrame(u32),
}

/// `ChannelAssignment` describes the mapping between the samples decoded from a subframe and the
/// channel those samples belong to. It is also through the `ChannelAssignment` that the decoder is
/// instructed on how to decorrelate stereo channels.
///
/// For LeftSide or RightSide channel assignments, one channel is stored independantly while the
/// other stores a difference. The Difference is always stored as Left - Right. For the MidSide
/// channel assignment, no channels are stored independantly, rather, a Mid (average) channel and a
/// Difference channel are stored.
#[derive(Copy, Clone, Debug, PartialEq, Eq, Structural)]
pub enum ChannelAssignment {
    /// All channels are independantly coded and no decorrelation step is required.
    Independant(u32),
    /// Channel 0 is the Left channel, and channel 1 is a Difference channel. The Right channel
    /// is restored by subtracting the Difference channel from the Left channel (R = L - D).
    LeftSide,
    /// Channel 0 is the Mid channel (Left/2 + Right/2), and channel 1 is the Difference channel
    /// (Left - Right).
    MidSide,
    /// Channel 0 is the Difference channel, and channel 1 is the Right channel. The Left channel
    /// is restored by adding the Difference channel to the Right channel (L = R + D).
    RightSide,
}

/// The fields of a FLAC frame header.
#[derive(Copy, Clone, Debug, PartialEq, Eq, Structural)]
pub struct FrameHeader {
    pub block_sequence: BlockSequence,
    pub block_num_samples: u16,
    pub channel_assignment: ChannelAssignment,
    pub bits_per_sample: Option<u32>,
    pub sample_rate: Option<u32>,
}

/// Whether bytes `i` and `i + 1` of `d` hold the frame synchronization code: `0xff`, then a byte
/// whose top six bits are `0b1111_10`.
pub open spec fn is_sync_at(d: Seq<u8>, i: int) -> bool {
    0 <= i && i + 1 < d.len() && d[i] == 0xff && 0xf8 <= d[i + 1] <= 0xfb
}

/// The first index at or after `p` where the synchronization code starts, or the length of `d`
/// if there is none.
pub open spec fn first_sync(d: Seq<u8>, p: int) -> int
    decreases d.len() - p,
{
    if p < 0 || p + 1 >= d.len() {
        d.len() as int
    } else if is_sync_at(d, p) {
        p
    } else {
        first_sync(d, p + 1)
    }
}

/// The synchronization code starting at byte `i`, as a 16-bit word.
pub open spec fn sync_word(d: Seq<u8>, i: int) -> u16 {
    (d[i] * 256 + d[i + 1]) as u16
}

pub proof fn lemma_first_sync(d: Seq<u8>, p: int)
    requires
        0 <= p,
    ensures
        p <= first_sync(d, p) <= d.len() || (p > d.len() && first_sync(d, p) == d.len()),
        first_sync(d, p) < d.len() ==> is_sync_at(d, first_sync(d, p)),
        forall|i: int| p <= i < first_sync(d, p) ==> !is_sync_at(d, i),
    decreases d.len() - p,
{
    if p + 1 < d.len() && !is_sync_at(d, p) {
        lemma_first_sync(d, p + 1);
    }
}

/// Reads bytes until the frame synchronization code has been read, and returns it.
pub fn sync_frame(reader: &mut BufStream) -> (r: Result<u16, Error>)
    ensures
        final(reader).data() == old(reader).data(),
        ({
            let d = old(reader).data();
            let i = first_sync(d, old(reader).position() as int);
            &&& r is Ok <==> i < d.len()
            &&& r matches Ok(sync) ==> sync == sync_word(d, i) && final(reader).position() == i + 2
            &&& r matches Err(e) ==> e == eof() && final(reader).position() == d.len()
        }),
{
    let ghost d = reader.data();
    let ghost p0 = reader.position() as int;
    proof {
        reader.lemma_position_bound();
        lemma_first_sync(d, p0);
    }
    let mut sync: u16 = 0;
    // Synchronize stream to Frame Header. FLAC specifies a byte-aligned 14 bit sync code of
    // `0b11_1111_1111_1110`. This would be difficult to find on its own. Expand the search to
    // a 16-bit field of `0b1111_1111_1111_10xx` and search a word at a time.
    loop
        invariant_except_break
            reader.data() == d,
            d == old(reader).data(),
            p0 == old(reader).position(),
            p0 <= reader.position() <= d.len(),
            reader.position() >= p0 + 1 ==> sync == (if reader.position() >= p0 + 2 {
                sync_word(d, reader.position() - 2) as int
            } else {
                d[p0] as int
            }),
            reader.position() == p0 ==> sync == 0,
            forall|i: int| p0 <= i < reader.position() - 1 ==> !is_sync_at(d, i),
        ensures
            reader.data() == d,
            reader.position() >= p0 + 2,
            sync == sync_word(d, reader.position() - 2),
            first_sync(d, p0) == reader.position() - 2,
        decreases d.len() - reader.position(),
    {
        proof {
            reader.lemma_position_bound();
        }
        let ghost pos = reader.position() as int;
        let byte = match reader.read_u8() {
            Ok(b) => b,
            Err(e) => {
                proof {
                    reader.lemma_position_bound();
                    lemma_first_sync(d, p0);
                    if first_sync(d, p0) < d.len() {
                        assert(is_sync_at(d, first_sync(d, p0)));
                        assert(false);
                    }
                }
                return Err(e);
            },
        };
        sync = (sync % 256) * 256 + byte as u16;
        if 0xfff8 <= sync && sync <= 0xfffb {
            proof {
                lemma_first_sync(d, p0);
                assert(pos >= p0 + 1);
                assert(is_sync_at(d, pos - 1));
            }
            break;
        }
        proof {
            if pos >= p0 + 1 {
                assert(!is_sync_at(d, pos - 1));
            }
        }
    }
    proof {
        reader.lemma_position_bound();
    }
    Ok(sync)
}

/// The 16-bit big-endian value of bytes `p` and `p + 1` of `d`.
pub open spec fn be_u16_at(d: Seq<u8>, p: int) -> nat {
    (d[p] * 256 + d[p + 1]) as nat
}

/// The block size coded by the 4-bit field `enc`, read with any bytes that follow at `p`, and
/// the position the read stops at.
pub open spec fn block_size_field(d: Seq<u8>, p: int, enc: nat) -> (Result<u16, Error>, int) {
    if enc == 1 {
        (Ok(192), p)
    } else if 2 <= enc <= 5 {
        (Ok((576 * vstd::arithmetic::power2::pow2((enc - 2) as nat)) as u16), p)
    } else if enc == 6 {
        if p + 1 > d.len() {
            (Err(eof()), p)
        } else {
            (Ok((d[p] + 1) as u16), p + 1)
        }
    } else if enc == 7 {
        if p + 2 > d.len() {
            (Err(eof()), p)
        } else if be_u16_at(d, p) == 0xffff {
            (Err(Error::DecodeError("Block size not allowed to be greater than 65535.")), p + 2)
        } else {
            (Ok((be_u16_at(d, p) + 1) as u16), p + 2)
        }
    } else if 8 <= enc <= 15 {
        (Ok((256 * vstd::arithmetic::power2::pow2((enc - 8) as nat)) as u16), p)
    } else {
        (Err(Error::DecodeError("Block size set to reserved value.")), p)
    }
}

/// The sample rate coded by the 4-bit field `enc`, read with any bytes that follow at `p`, and
/// the position the read stops at.
pub open spec fn sample_rate_field(d: Seq<u8>, p: int, enc: nat) -> (Result<Option<u32>, Error>, int) {
    if enc == 0 {
        (Ok(None), p)
    } else if 1 <= enc <= 11 {
        (Ok(Some(standard_sample_rate(enc))), p)
    } else if enc == 12 {
        if p + 1 > d.len() {
            (Err(eof()), p)
        } else {
            (Ok(Some(d[p] as u32)), p + 1)
        }
    } else if enc == 13 || enc == 14 {
        if p + 2 > d.len() {
            (Err(eof()), p)
        } else if enc == 13 {
            (Ok(Some(be_u16_at(d, p) as u32)), p + 2)
        } else {
            (Ok(Some((be_u16_at(d, p) * 10) as u32)), p + 2)
        }
    } else {
        (Err(Error::DecodeError("Sample rate set to reserved value.")), p)
    }
}

/// The sample rates coded directly by the values 1 to 11 of the sample rate field.
pub open spec fn standard_sample_rate(enc: nat) -> u32 {
    if enc == 1 {
        88_200
    } else if enc == 2 {
        176_400
    } else if enc == 3 {
        192_000
    } else if enc == 4 {
        8_000
    } else if enc == 5 {
        16_000
    } else if enc == 6 {
        22_050
    } else if enc == 7 {
        24_000
    } else if enc == 8 {
        32_000
    } else if enc == 9 {
        44_100
    } else if enc == 10 {
        48_000
    } else {
        96_000
    }
}

/// The bits per sample coded by the 3-bit field `enc`.
pub open spec fn bits_per_sample_field(enc: nat) -> Result<Option<u32>, Error> {
    if enc == 0 {
        Ok(None)
    } else if enc == 1 {
        Ok(Some(8))
    } else if enc == 2 {
        Ok(Some(12))
    } else if enc == 4 {
        Ok(Some(16))
    } else if enc == 5 {
        Ok(Some(20))
    } else if enc == 6 {
        Ok(Some(24))
    } else {
        Err(Error::DecodeError("Bits per sample set to reserved value."))
    }
}

/// The channel assignment coded by the 4-bit field `enc`.
pub open spec fn channel_field(enc: nat) -> Result<ChannelAssignment, Error> {
    if enc <= 7 {
        Ok(ChannelAssignment::Independant((enc + 1) as u32))
    } else if enc == 8 {
        Ok(ChannelAssignment::LeftSide)
    } else if enc == 9 {
        Ok(ChannelAssignment::RightSide)
    } else if enc == 10 {
        Ok(ChannelAssignment::MidSide)
    } else {
        Err(Error::DecodeError("Channel assignment set to reserved value."))
    }
}

/// The frame number or sample number `v` read for a frame whose synchronization code is `sync`.
pub open spec fn block_sequence_field(sync: u16, v: u64) -> Result<BlockSequence, Error> {
    if sync % 2 == 0 {
        if v > 0x7fff_ffff {
            Err(Error::DecodeError("Frame sequence number exceeds 31-bits."))
        } else {
            Ok(BlockSequence::ByFrame(v as u32))
        }
    } else if v > 0xf_ffff_ffff {
        Err(Error::DecodeError("Sample sequence number exceeds 36-bits"))
    } else {
        Ok(BlockSequence::BySample(v))
    }
}

/// The two bytes of the synchronization code, most significant first.
pub open spec fn sync_bytes(sync: u16) -> Seq<u8> {
    seq![(sync / 256) as u8, (sync % 256) as u8]
}

/// The frame or sample number read at `p` for a frame whose synchronization code is `sync`, and
/// the position the read stops at.
pub open spec fn block_sequence_at(d: Seq<u8>, p: int, sync: u16) -> (Result<BlockSequence, Error>, int) {
    match utf8_number(d, p) {
        Err(e) => (Err(e), d.len() as int),
        Ok((None, p1)) => (Err(Error::DecodeError("Frame sequence number is not valid.")), p1),
        Ok((Some(v), p1)) => (block_sequence_field(sync, v), p1),
    }
}

/// The frame header at byte `pos` of `d`, following the synchronization code `sync`, and the
/// position reading it stops at: after its CRC byte when it is valid, at the point where the
/// reading failed otherwise.
///
/// The header is a 16-bit description (block size, sample rate, channels and bits per sample
/// codes, and a reserved zero bit), the frame or sample number in extended UTF8, the block size
/// and sample rate bytes the codes call for, and a CRC-8 of everything from the synchronization
/// code on.
pub open spec fn frame_header(d: Seq<u8>, pos: int, sync: u16) -> (Result<FrameHeader, Error>, int) {
    if pos + 2 > d.len() {
        (Err(eof()), pos)
    } else {
        let desc = be_u16_at(d, pos);
        if desc % 2 == 1 {
            (
                Err(Error::DecodeError("Frame header reserved bit is not set to mandatory value.")),
                pos + 2,
            )
        } else {
            let (seq, p1) = block_sequence_at(d, pos + 2, sync);
            match seq {
                Err(e) => (Err(e), p1),
                Ok(block_sequence) => {
                    let (size, p2) = block_size_field(d, p1, desc / 4096);
                    match size {
                        Err(e) => (Err(e), p2),
                        Ok(block_num_samples) => {
                            let (rate, p3) = sample_rate_field(d, p2, desc / 256 % 16);
                            match rate {
                                Err(e) => (Err(e), p3),
                                Ok(sample_rate) => frame_header_tail(
                                    d,
                                    pos,
                                    sync,
                                    desc,
                                    block_sequence,
                                    block_num_samples,
                                    sample_rate,
                                    p3,
                                ),
                            }
                        },
                    }
                },
            }
        }
    }
}

/// The channel assignment of a frame is coded by the high nibble of the second byte after the
/// synchronization code: codes 0 to 7 are 1 to 8 channels coded independently, 8 is left/side
/// stereo, 9 right/side stereo and 10 mid/side stereo; a header with codes 11 to 15 is refused.
pub proof fn lemma_channel_assignment_codes(d: Seq<u8>, pos: int, sync: u16)
    requires
        0 <= pos,
        pos + 2 <= d.len(),
    ensures
        frame_header(d, pos, sync).0 matches Ok(h) ==> {
            let code = d[pos + 1] / 16;
            &&& code <= 10
            &&& code <= 7 ==> h.channel_assignment == ChannelAssignment::Independant(
                (code + 1) as u32,
            )
            &&& code == 8 ==> h.channel_assignment == ChannelAssignment::LeftSide
            &&& code == 9 ==> h.channel_assignment == ChannelAssignment::RightSide
            &&& code == 10 ==> h.channel_assignment == ChannelAssignment::MidSide
        },
{
    let desc = be_u16_at(d, pos);
    let a = d[pos] as int;
    let b = d[pos + 1] as int;
    assert(desc / 16 % 16 == b / 16) by (nonlinear_arith)
        requires
            desc == a * 256 + b,
            0 <= a < 256,
            0 <= b < 256,
    ;
}

/// The end of a frame header: the sample rate bounds, the bits per sample and channel codes, and
/// the CRC byte at `p3`.
pub open spec fn frame_header_tail(
    d: Seq<u8>,
    pos: int,
    sync: u16,
    desc: nat,
    block_sequence: BlockSequence,
    block_num_samples: u16,
    sample_rate: Option<u32>,
    p3: int,
) -> (Result<FrameHeader, Error>, int) {
    if sample_rate matches Some(rate) && (rate < 1 || rate > 655_350) {
        (Err(Error::DecodeError("Sample rate out of bounds.")), p3)
    } else {
        match bits_per_sample_field(desc / 2 % 8) {
            Err(e) => (Err(e), p3),
            Ok(bits_per_sample) => match channel_field(desc / 16 % 16) {
                Err(e) => (Err(e), p3),
                Ok(channel_assignment) => if p3 + 1 > d.len() {
                    (Err(eof()), p3)
                } else if d[p3] != crc8(0, sync_bytes(sync) + d.subrange(pos, p3)) {
                    (
                        Err(
                            Error::DecodeError(
                                "Computed frame header CRC does not match expected CRC.",
                            ),
                        ),
                        p3 + 1,
                    )
                } else {
                    (
                        Ok(
                            FrameHeader {
                                block_sequence,
                                block_num_samples,
                                channel_assignment,
                                bits_per_sample,
                                sample_rate,
                            },
                        ),
                        p3 + 1,
                    )
                },
            },
        }
    }
}

/// Reads the frame or sample number of a frame whose synchronization code is `sync`.
fn read_block_sequence(reader: &mut BufStream, sync: u16) -> (r: Result<BlockSequence, Error>)
    ensures
        final(reader).data() == old(reader).data(),
        (r, final(reader).position() as int) == block_sequence_at(
            old(reader).data(),
            old(reader).position() as int,
            sync,
        ),
{
    let value = match utf8_decode_be_u64(reader)? {
        Some(value) => value,
        None => return decode_error("Frame sequence number is not valid."),
    };
    if sync % 2 == 0 {
        // Fixed-blocksize stream sequence blocks by a frame number, of at most 31 bits.
        if value > 0x7fff_ffff {
            return decode_error("Frame sequence number exceeds 31-bits.");
        }
        Ok(BlockSequence::ByFrame(value as u32))
    } else {
        // Variable-blocksize streams sequence blocks by a sample number, of at most 36 bits.
        if value > 0xf_ffff_ffff {
            return decode_error("Sample sequence number exceeds 36-bits");
        }
        Ok(BlockSequence::BySample(value))
    }
}

/// Reads the block size coded by `enc`, with any bytes it calls for.
fn read_block_size(reader: &mut BufStream, enc: u16) -> (r: Result<u16, Error>)
    requires
        enc < 16,
    ensures
        final(reader).data() == old(reader).data(),
        (r, final(reader).position() as int) == block_size_field(
            old(reader).data(),
            old(reader).position() as int,
            enc as nat,
        ),
{
    proof {
        lemma2_to64();
        reveal_with_fuel(be_val, 3);
    }
    if enc == 1 {
        Ok(192)
    } else if enc == 2 {
        Ok(576)
    } else if enc == 3 {
        Ok(1152)
    } else if enc == 4 {
        Ok(2304)
    } else if enc == 5 {
        Ok(4608)
    } else if enc == 6 {
        Ok(reader.read_u8()? as u16 + 1)
    } else if enc == 7 {
        let block_size = reader.read_be_u16()?;
        if block_size == 0xffff {
            return decode_error("Block size not allowed to be greater than 65535.");
        }
        Ok(block_size + 1)
    } else if enc == 8 {
        Ok(256)
    } else if enc == 9 {
        Ok(512)
    } else if enc == 10 {
        Ok(1024)
    } else if enc == 11 {
        Ok(2048)
    } else if enc == 12 {
        Ok(4096)
    } else if enc == 13 {
        Ok(8192)
    } else if enc == 14 {
        Ok(16384)
    } else if enc == 15 {
        Ok(32768)
    } else {
        decode_error("Block size set to reserved value.")
    }
}

/// Reads the sample rate coded by `enc`, with any bytes it calls for.
fn read_sample_rate(reader: &mut BufStream, enc: u16) -> (r: Result<Option<u32>, Error>)
    requires
        enc < 16,
    ensures
        final(reader).data() == old(reader).data(),
        (r, final(reader).position() as int) == sample_rate_field(
            old(reader).data(),
            old(reader).position() as int,
            enc as nat,
        ),
{
    proof {
        reveal_with_fuel(be_val, 3);
    }
    if enc == 0 {
        // Get from StreamInfo if possible.
        Ok(None)
    } else if enc == 1 {
        Ok(Some(88_200))
    } else if enc == 2 {
        Ok(Some(176_400))
    } else if enc == 3 {
        Ok(Some(192_000))
    } else if enc == 4 {
        Ok(Some(8_000))
    } else if enc == 5 {
        Ok(Some(16_000))
    } else if enc == 6 {
        Ok(Some(22_050))
    } else if enc == 7 {
        Ok(Some(24_000))
    } else if enc == 8 {
        Ok(Some(32_000))
    } else if enc == 9 {
        Ok(Some(44_100))
    } else if enc == 10 {
        Ok(Some(48_000))
    } else if enc == 11 {
        Ok(Some(96_000))
    } else if enc == 12 {
        Ok(Some(reader.read_u8()? as u32))
    } else if enc == 13 {
        Ok(Some(reader.read_be_u16()? as u32))
    } else if enc == 14 {
        Ok(Some(reader.read_be_u16()? as u32 * 10))
    } else {
        decode_error("Sample rate set to reserved value.")
    }
}

/// Returns the bits per sample coded by `enc`.
fn bits_per_sample_code(enc: u16) -> (r: Result<Option<u32>, Error>)
    ensures
        r == bits_per_sample_field(enc as nat),
{
    if enc == 0 {
        // Get from StreamInfo if possible.
        Ok(None)
    } else if enc == 1 {
        Ok(Some(8))
    } else if enc == 2 {
        Ok(Some(12))
    } else if enc == 4 {
        Ok(Some(16))
    } else if enc == 5 {
        Ok(Some(20))
    } else if enc == 6 {
        Ok(Some(24))
    } else {
        decode_error("Bits per sample set to reserved value.")
    }
}

/// Returns the channel assignment coded by `enc`.
fn channel_assignment_code(enc: u16) -> (r: Result<ChannelAssignment, Error>)
    ensures
        r == channel_field(enc as nat),
{
    if enc <= 7 {
        Ok(ChannelAssignment::Independant(enc as u32 + 1))
    } else if enc == 8 {
        Ok(ChannelAssignment::LeftSide)
    } else if enc == 9 {
        Ok(ChannelAssignment::RightSide)
    } else if enc == 10 {
        Ok(ChannelAssignment::MidSide)
    } else {
        decode_error("Channel assignment set to reserved value.")
    }
}

/// Reads a frame header that follows the synchronization code `sync`.
pub fn read_frame_header(reader: &mut BufStream, sync: u16) -> (r: Result<FrameHeader, Error>)
    ensures
        final(reader).data() == old(reader).data(),
        (r, final(reader).position() as int) == frame_header(
            old(reader).data(),
            old(reader).position() as int,
            sync,
        ),
{
    let ghost d = reader.data();
    let start = reader.pos();
    proof {
        reader.lemma_position_bound();
        reveal_with_fuel(be_val, 3);
    }
    // Read all the standard frame description fields as one 16-bit value and extract the
    // fields.
    let desc = reader.read_be_u16()?;
    if desc % 2 == 1 {
        return decode_error("Frame header reserved bit is not set to mandatory value.");
    }
    let block_sequence = read_block_sequence(reader, sync)?;
    let block_num_samples = read_block_size(reader, desc / 4096)?;
    let sample_rate = read_sample_rate(reader, desc / 256 % 16)?;
    let ghost p3 = reader.position() as int;
    if let Some(rate) = sample_rate {
        if rate < 1 || rate > 655_350 {
            return decode_error("Sample rate out of bounds.");
        }
    }
    let bits_per_sample = bits_per_sample_code(desc / 2 % 8)?;
    let channel_assignment = channel_assignment_code(desc / 16 % 16)?;
    // The header is checksummed with a CRC8 hash, including the synchronization code.
    let mut crc8 = Crc8Ccitt::new(0);
    let sync_buf = [(sync / 256) as u8, (sync % 256) as u8];
    crc8.process_buf_bytes(&sync_buf);
    let header_buf = reader.bytes_since(start);
    crc8.process_buf_bytes(header_buf);
    let crc8_computed = crc8.crc();
    proof {
        assert(sync_buf@ =~= sync_bytes(sync));
        lemma_crc8_append(0, sync_buf@, header_buf@);
    }
    // Get expected CRC8 checksum from the header.
    let crc8_expected = reader.read_u8()?;
    if crc8_expected != crc8_computed {
        return decode_error("Computed frame header CRC does not match expected CRC.");
    }
    Ok(FrameHeader {
        block_sequence,
        block_num_samples,
        channel_assignment,
        bits_per_sample,
        sample_rate,
    })
}

/// The quick check of a frame header: a block size code that is not reserved, a sample rate code
/// that is not invalid, a channel assignment and a bit depth that are not reserved, and a zero
/// reserved bit.
pub open spec fn likely_frame_header(b: Seq<u8>) -> bool {
    b[0] / 16 != 0 && b[0] % 16 != 15 && b[1] / 16 < 11 && b[1] % 16 / 2 != 3 && b[1] % 16 / 2
        != 7 && b[1] % 2 == 0
}

/// A very quick check if the provided buffer is likely be a FLAC frame header.
pub fn is_likely_frame_header(buf: &[u8]) -> (r: bool)
    requires
        buf@.len() >= 2,
    ensures
        r == likely_frame_header(buf@),
{
    if buf[0] / 16 == 0 {
        return false;
    }
    if buf[0] % 16 == 15 {
        return false;
    }
    if buf[1] / 16 >= 11 {
        return false;
    }
    if buf[1] % 16 / 2 == 3 || buf[1] % 16 / 2 == 7 {
        return false;
    }
    if buf[1] % 2 == 1 {
        return false;
    }
    true
}

/// Reading a frame header never moves backwards and never passes the end of the data.
pub proof fn lemma_frame_header_end(d: Seq<u8>, pos: int, sync: u16)
    requires
        0 <= pos <= d.len(),
    ensures
        pos <= frame_header(d, pos, sync).1 <= d.len(),
{
    if pos + 2 <= d.len() {
        let p = pos + 2;
        if p < d.len() {
            match utf8_continuations(d[p]) {
                Some(k) => {
                    assert(utf8_number(d, p) is Ok ==> utf8_number(d, p)->Ok_0.1 <= d.len());
                },
                None => {},
            }
        }
    }
}

/// The position of a FLAC frame in a stream, and what its header says of it.
#[derive(Copy, Clone, Debug, PartialEq, Eq, Structural)]
pub struct ParsedPacket {
    /// The timestamp of the first audio frame in the packet.
    pub packet_ts: u64,
    /// The number of audio frames in the packet.
    pub n_frames: u32,
    /// The number of bytes of the packet that were consumed while parsing.
    pub parsed_len: usize,
}

/// The timestamp of the first sample of the frame with header `h`.
pub open spec fn packet_ts_of(h: FrameHeader) -> u64 {
    match h.block_sequence {
        BlockSequence::ByFrame(seq) => (seq * h.block_num_samples) as u64,
        BlockSequence::BySample(seq) => seq,
    }
}

/// The first valid frame header found by synchronizing from byte `p` of `d`, with the index of
/// its synchronization code, and the position reading stops at. After a synchronization code
/// whose header is not valid, the search resumes where reading that header stopped.
pub open spec fn next_header(d: Seq<u8>, p: int) -> (Result<(FrameHeader, int), Error>, int)
    decreases d.len() - p,
{
    let i = first_sync(d, p);
    if i >= d.len() {
        (Err(eof()), d.len() as int)
    } else {
        let (h, e) = frame_header(d, i + 2, sync_word(d, i));
        match h {
            Ok(h) => (Ok((h, i)), e),
            Err(_) => {
                proof {
                    if p >= 0 {
                        lemma_first_sync(d, p);
                    }
                    lemma_frame_header_end(d, i + 2, sync_word(d, i));
                }
                next_header(d, e)
            },
        }
    }
}

/// Finds the next valid frame header and returns the frame's timestamp and length in samples,
/// and the length of what was read from the start of its synchronization code.
pub fn next_frame(reader: &mut BufStream) -> (r: Result<ParsedPacket, Error>)
    ensures
        final(reader).data() == old(reader).data(),
        ({
            let (res, e) = next_header(old(reader).data(), old(reader).position() as int);
            &&& final(reader).position() == e
            &&& match res {
                Ok((h, i)) => r == Ok::<ParsedPacket, Error>(
                    ParsedPacket {
                        packet_ts: packet_ts_of(h),
                        n_frames: h.block_num_samples as u32,
                        parsed_len: (e - i) as usize,
                    },
                ),
                Err(err) => r == Err::<ParsedPacket, Error>(err),
            }
        }),
{
    let ghost d = reader.data();
    loop
        invariant
            reader.data() == d,
            d == old(reader).data(),
            next_header(d, old(reader).position() as int) == next_header(
                d,
                reader.position() as int,
            ),
        decreases d.len() - reader.position(),
    {
        proof {
            reader.lemma_position_bound();
        }
        let ghost q = reader.position() as int;
        let sync = sync_frame(reader)?;
        proof {
            lemma_first_sync(d, q);
            reader.lemma_position_bound();
        }
        let byte_offset = reader.pos() - 2;
        match read_frame_header(reader, sync) {
            Ok(header) => {
                proof {
                    reader.lemma_position_bound();
                }
                let packet_ts = match header.block_sequence {
                    BlockSequence::ByFrame(seq) => {
                        let n = header.block_num_samples;
                        assert(seq as u64 * n as u64 <= 0xffff_ffff * 0xffff) by (nonlinear_arith)
                            requires
                                seq <= 0xffff_ffff,
                                n <= 0xffff,
                        ;
                        seq as u64 * n as u64
                    },
                    BlockSequence::BySample(seq) => seq,
                };
                return Ok(
                    ParsedPacket {
                        packet_ts,
                        n_frames: header.block_num_samples as u32,
                        parsed_len: reader.pos() - byte_offset,
                    },
                );
            },
            Err(_) => {
                proof {
                    lemma_frame_header_end(d, q + (first_sync(d, q) - q) + 2, sync);
                }
            },
        }
    }
}

/// A frame header found by searching from `p` starts at or after `p`, with its synchronization
/// code, and the search ends past it; searching again from the frame's start finds it again.
pub proof fn lemma_next_header_found(d: Seq<u8>, p: int)
    requires
        0 <= p <= d.len(),
    ensures
        p <= next_header(d, p).1 <= d.len(),
        next_header(d, p).0 matches Err(e) ==> e == eof(),
        next_header(d, p).0 matches Ok((h, i)) ==> {
            &&& p <= i
            &&& i + 2 <= next_header(d, p).1 <= d.len()
            &&& is_sync_at(d, i)
            &&& next_header(d, i) == next_header(d, p)
        },
    decreases d.len() - p,
{
    let i = first_sync(d, p);
    lemma_first_sync(d, p);
    if i < d.len() {
        lemma_frame_header_end(d, i + 2, sync_word(d, i));
        let (h, e) = frame_header(d, i + 2, sync_word(d, i));
        match h {
            Ok(_) => {
                assert(first_sync(d, i) == i);
            },
            Err(_) => {
                lemma_next_header_found(d, e);
            },
        }
    }
}

/// A valid frame header has at least one sample per block.
pub proof fn lemma_block_size_positive(d: Seq<u8>, pos: int, sync: u16)
    ensures
        frame_header(d, pos, sync).0 matches Ok(h) ==> h.block_num_samples >= 1,
{
    lemma2_to64();
}

} // verus!
