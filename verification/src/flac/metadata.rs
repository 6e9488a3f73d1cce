//! FLAC metadata blocks: block headers, stream information, seek tables, cuesheets and
//! application data.

use vstd::prelude::*;
use crate::audio::Channels;
use crate::errors::{Error, decode_error};
use crate::formats::{SeekIndex, SeekPoint};
use crate::io::{BufStream, BitReaderLtr, be_val, eof};
use crate::io::bits_model::bits_val;

verus! {

/// The type of a metadata block.
#[derive(Copy, Clone, Debug, PartialEq, Eq, Structural)]
pub enum MetadataBlockType {
    StreamInfo,
    Padding,
    Application,
    SeekTable,
    VorbisComment,
    Cuesheet,
    Picture,
    Unknown(u8),
}

/// The block type coded by the 7-bit value `id`.
pub open spec fn block_type_of(id: u8) -> MetadataBlockType {
    if id == 0 {
        MetadataBlockType::StreamInfo
    } else if id == 1 {
        MetadataBlockType::Padding
    } else if id == 2 {
        MetadataBlockType::Application
    } else if id == 3 {
        MetadataBlockType::SeekTable
    } else if id == 4 {
        MetadataBlockType::VorbisComment
    } else if id == 5 {
        MetadataBlockType::Cuesheet
    } else if id == 6 {
        MetadataBlockType::Picture
    } else {
        MetadataBlockType::Unknown(id)
    }
}

/// The header of a metadata block.
#[derive(Copy, Clone, Debug, PartialEq, Eq, Structural)]
pub struct MetadataBlockHeader {
    pub is_last: bool,
    pub block_type: MetadataBlockType,
    pub block_len: u32,
}

impl MetadataBlockHeader {
    /// Reads a metadata block header: a flag marking the last block, a 7-bit block type, and a
    /// 24-bit block length.
    pub fn read(reader: &mut BufStream) -> (r: Result<MetadataBlockHeader, Error>)
        ensures
            final(reader).data() == old(reader).data(),
            ({
                let d = old(reader).data();
                let p = old(reader).position() as int;
                &&& r is Ok <==> p + 4 <= d.len()
                &&& r matches Err(e) ==> e == eof()
                &&& r matches Ok(h) ==> {
                    &&& h.is_last == (d[p] >= 0x80)
                    &&& h.block_type == block_type_of((d[p] % 0x80) as u8)
                    &&& h.block_len == be_val(d.subrange(p + 1, p + 4))
                    &&& final(reader).position() == p + 4
                }
            }),
    {
        let header_enc = reader.read_u8()?;
        // First bit of the header indicates if this is the last metadata block.
        let is_last = header_enc >= 0x80;
        // The next 7 bits of the header indicates the block type.
        let block_type_id = header_enc % 0x80;
        let block_type = if block_type_id == 0 {
            MetadataBlockType::StreamInfo
        } else if block_type_id == 1 {
            MetadataBlockType::Padding
        } else if block_type_id == 2 {
            MetadataBlockType::Application
        } else if block_type_id == 3 {
            MetadataBlockType::SeekTable
        } else if block_type_id == 4 {
            MetadataBlockType::VorbisComment
        } else if block_type_id == 5 {
            MetadataBlockType::Cuesheet
        } else if block_type_id == 6 {
            MetadataBlockType::Picture
        } else {
            MetadataBlockType::Unknown(block_type_id)
        };
        let block_len = reader.read_be_u24()?;
        Ok(MetadataBlockHeader { is_last, block_type, block_len })
    }
}

/// The channel mask of a FLAC stream with the given number of channels.
pub open spec fn flac_channel_mask(channels: u32) -> u32 {
    if channels == 1 {
        // Front left.
        0x1
    } else if channels == 2 {
        // Front left and right.
        0x3
    } else if channels == 3 {
        // Front left, right and centre.
        0x7
    } else if channels == 4 {
        // Front left and right, rear left and right.
        0x2b
    } else if channels == 5 {
        // Front left, right and centre, rear left and right.
        0x2f
    } else if channels == 6 {
        // Front left, right and centre, low frequency, rear left and right.
        0x6f
    } else if channels == 7 {
        // Front left, right and centre, low frequency, rear left, centre and right.
        0x7f
    } else {
        // Front left, right and centre, low frequency, rear left and right, side left and right.
        0x6006f
    }
}

/// Returns the channels of a FLAC stream with the given number of channels.
pub fn flac_channels_to_channels(channels: u32) -> (r: Channels)
    requires
        1 <= channels <= 8,
    ensures
        r.mask() == flac_channel_mask(channels),
{
    Channels::from_bits_truncate(flac_channel_bits(channels))
}

/// The channel mask of a FLAC stream of one to eight channels.
fn flac_channel_bits(channels: u32) -> (r: u32)
    requires
        1 <= channels <= 8,
    ensures
        r == flac_channel_mask(channels),
        r < 0x400_0000,
{
    if channels == 1 {
        0x1
    } else if channels == 2 {
        0x3
    } else if channels == 3 {
        0x7
    } else if channels == 4 {
        0x2b
    } else if channels == 5 {
        0x2f
    } else if channels == 6 {
        0x6f
    } else if channels == 7 {
        0x7f
    } else {
        0x6006f
    }
}

/// The contents of a STREAMINFO block.
#[derive(Copy, Clone, Debug)]
pub struct StreamInfo {
    /// The minimum and maximum number of decoded samples per block of audio.
    pub block_sample_len: (u16, u16),
    /// The minimum and maximum byte length of an encoded block (frame) of audio. Either value may
    /// be 0 if unknown.
    pub frame_byte_len: (u32, u32),
    /// The sample rate in Hz.
    pub sample_rate: u32,
    /// The channel mask.
    pub channels: Channels,
    /// The number of bits per sample of the stream.
    pub bits_per_sample: u32,
    /// The total number of samples in the stream, if available.
    pub n_samples: Option<u64>,
    /// The MD5 hash value of the decoded audio.
    pub md5: [u8; 16],
}

/// The 16-bit big-endian value at byte `p` of `d`.
pub open spec fn be16(d: Seq<u8>, p: int) -> nat {
    be_val(d.subrange(p, p + 2))
}

/// The 24-bit big-endian value at byte `p` of `d`.
pub open spec fn be24(d: Seq<u8>, p: int) -> nat {
    be_val(d.subrange(p, p + 3))
}

/// Why the STREAMINFO block at byte `p` of `d` cannot be read, if it can't.
pub open spec fn stream_info_error(d: Seq<u8>, p: int) -> Option<Error> {
    let b = 8 * (p + 10);
    if p + 4 > d.len() {
        Some(eof())
    } else if be16(d, p) < 16 || be16(d, p + 2) < 16 {
        Some(Error::DecodeError("Minimum block length is 16 samples."))
    } else if be16(d, p + 2) < be16(d, p) {
        Some(
            Error::DecodeError("Maximum block length cannot be less than the minimum block length."),
        )
    } else if p + 10 > d.len() {
        Some(eof())
    } else if be24(d, p + 4) > 0 && be24(d, p + 7) > 0 && be24(d, p + 7) < be24(d, p + 4) {
        Some(
            Error::DecodeError("Maximum frame length cannot be less than the minimum frame length."),
        )
    } else if b + 20 > 8 * d.len() {
        Some(eof())
    } else if bits_val(d, b, 20) < 1 || bits_val(d, b, 20) > 655_350 {
        Some(Error::DecodeError("Stream sample rate out of bounds."))
    } else if b + 28 > 8 * d.len() {
        Some(eof())
    } else if bits_val(d, b + 23, 5) + 1 < 4 {
        Some(Error::DecodeError("Stream bits per sample are out of bounds."))
    } else if p + 34 > d.len() {
        Some(eof())
    } else {
        None
    }
}

impl StreamInfo {
    /// Reads a STREAMINFO block.
    ///
    /// The block holds the block length bounds (16 bits each), the frame length bounds (24 bits
    /// each), then, packed, a 20-bit sample rate, the number of channels less one in 3 bits, the
    /// bits per sample less one in 5 bits and a 36-bit sample count, and last a 16-byte MD5.
    pub fn read(reader: &mut BufStream) -> (r: Result<StreamInfo, Error>)
        ensures
            final(reader).data() == old(reader).data(),
            ({
                let d = old(reader).data();
                let p = old(reader).position() as int;
                let b = 8 * (p + 10);
                &&& r is Err <==> stream_info_error(d, p) is Some
                &&& r matches Err(e) ==> stream_info_error(d, p) == Some(e)
                &&& r matches Ok(info) ==> {
                    &&& info.block_sample_len == (be16(d, p) as u16, be16(d, p + 2) as u16)
                    &&& info.frame_byte_len == (be24(d, p + 4) as u32, be24(d, p + 7) as u32)
                    &&& info.sample_rate == bits_val(d, b, 20)
                    &&& info.channels.mask() == flac_channel_mask(
                        (bits_val(d, b + 20, 3) + 1) as u32,
                    )
                    &&& info.bits_per_sample == bits_val(d, b + 23, 5) + 1
                    &&& info.n_samples == if bits_val(d, b + 28, 36) == 0 {
                        None
                    } else {
                        Some(bits_val(d, b + 28, 36) as u64)
                    }
                    &&& info.md5@ == d.subrange(p + 18, p + 34)
                    &&& final(reader).position() == p + 34
                }
            }),
    {
        let ghost d = reader.data();
        let ghost p = reader.position() as int;
        proof {
            reader.lemma_position_bound();
        }
        // Read the block length bounds in number of samples.
        let min_block = reader.read_be_u16()?;
        let max_block = reader.read_be_u16()?;
        // Validate the block length bounds are in the range [16, 65535] samples.
        if min_block < 16 || max_block < 16 {
            return decode_error("Minimum block length is 16 samples.");
        }
        // Validate the maximum block size is greater than or equal to the minimum block size.
        if max_block < min_block {
            return decode_error(
                "Maximum block length cannot be less than the minimum block length.",
            );
        }
        // Read the frame byte length bounds.
        let min_frame = reader.read_be_u24()?;
        let max_frame = match reader.read_be_u24() {
            Ok(v) => v,
            Err(e) => return Err(e),
        };
        // Validate the maximum frame byte length is greater than or equal to the minimum frame
        // byte length if both are known. A value of 0 for either indicates the respective byte
        // length is unknown.
        if min_frame > 0 && max_frame > 0 && max_frame < min_frame {
            return decode_error(
                "Maximum frame length cannot be less than the minimum frame length.",
            );
        }
        let mut br = BitReaderLtr::new();
        proof {
            vstd::arithmetic::power2::lemma2_to64();
            crate::io::bits_model::lemma_bits_val_bound(d, 8 * (p + 10) + 20, 3);
            crate::io::bits_model::lemma_bits_val_bound(d, 8 * (p + 10) + 23, 5);
        }
        // Read sample rate, valid rates are [1, 655350] Hz.
        let sample_rate = br.read_bits_leq32(reader, 20)?;
        if sample_rate < 1 || sample_rate > 655_350 {
            return decode_error("Stream sample rate out of bounds.");
        }
        // Read number of channels minus 1. Valid number of channels are 1-8.
        let channels_enc = br.read_bits_leq32(reader, 3)? + 1;
        let channels = flac_channels_to_channels(channels_enc);
        // Read bits per sample minus 1. Valid number of bits per sample are 4-32.
        let bits_per_sample = br.read_bits_leq32(reader, 5)? + 1;
        if bits_per_sample < 4 {
            return decode_error("Stream bits per sample are out of bounds.");
        }
        // Read the total number of samples. A value of 0 indiciates a stream of unknown length.
        let n_samples_enc = br.read_bits_leq64(reader, 36)?;
        let n_samples = if n_samples_enc == 0 {
            None
        } else {
            Some(n_samples_enc)
        };
        // Read the decoded audio data MD5.
        let mut md5 = [0u8; 16];
        reader.read_buf_bytes(&mut md5)?;
        Ok(StreamInfo {
            block_sample_len: (min_block, max_block),
            frame_byte_len: (min_frame, max_frame),
            sample_rate,
            channels,
            bits_per_sample,
            n_samples,
            md5,
        })
    }
}

/// The 64-bit big-endian value at byte `p` of `d`.
pub open spec fn be64(d: Seq<u8>, p: int) -> nat {
    be_val(d.subrange(p, p + 8))
}

/// One seek table entry at byte `p`: the seek point it holds, unless it is a placeholder, and
/// the position after it; `None` if the data ends first.
pub open spec fn seek_entry(d: Seq<u8>, p: int) -> Option<(Option<SeekPoint>, int)> {
    if p + 8 > d.len() {
        None
    } else if be64(d, p) == 0xffff_ffff_ffff_ffff {
        if p + 18 > d.len() {
            None
        } else {
            Some((None, p + 18))
        }
    } else if p + 18 > d.len() {
        None
    } else {
        Some(
            (
                Some(
                    SeekPoint {
                        frame_ts: be64(d, p) as u64,
                        byte_offset: be64(d, p + 8) as u64,
                        n_frames: be16(d, p + 16) as u32,
                    },
                ),
                p + 18,
            ),
        )
    }
}

/// The seek points of the first `n` seek table entries at byte `p`, placeholders left out.
pub open spec fn seek_entries(d: Seq<u8>, p: int, n: nat) -> Option<(Seq<SeekPoint>, int)>
    decreases n,
{
    if n == 0 {
        Some((seq![], p))
    } else {
        match seek_entries(d, p, (n - 1) as nat) {
            None => None,
            Some((pts, q)) => match seek_entry(d, q) {
                None => None,
                Some((Some(pt), q2)) => Some((pts.push(pt), q2)),
                Some((None, q2)) => Some((pts, q2)),
            },
        }
    }
}

proof fn lemma_seek_entries_none(d: Seq<u8>, p: int, n: nat, m: nat)
    requires
        n <= m,
        seek_entries(d, p, n) is None,
    ensures
        seek_entries(d, p, m) is None,
    decreases m - n,
{
    if n < m {
        lemma_seek_entries_none(d, p, n, (m - 1) as nat);
    }
}

/// Reads a seek table block of `block_length` bytes into `table`: one entry per 18 bytes, each a
/// 64-bit sample number, a 64-bit byte offset and a 16-bit frame count. Placeholder entries
/// (a sample number of all ones) are skipped.
pub fn read_seek_table_block(reader: &mut BufStream, block_length: u32, table: &mut SeekIndex) -> (r:
    Result<(), Error>)
    ensures
        final(reader).data() == old(reader).data(),
        ({
            let res = seek_entries(
                old(reader).data(),
                old(reader).position() as int,
                (block_length / 18) as nat,
            );
            &&& r is Ok <==> res is Some
            &&& r matches Err(e) ==> e == eof()
            &&& r is Ok ==> final(table)@ == old(table)@ + res.unwrap().0
                && final(reader).position() == res.unwrap().1
        }),
{
    let ghost d = reader.data();
    let ghost p0 = reader.position() as int;
    // The number of seek table entries is always the block length divided by the length of a
    // single entry, 18 bytes.
    let count = block_length / 18;
    let mut i: u32 = 0;
    proof {
        assert(old(table)@ + Seq::<SeekPoint>::empty() =~= old(table)@);
    }
    while i < count
        invariant
            reader.data() == d,
            d == old(reader).data(),
            p0 == old(reader).position(),
            i <= count,
            count == block_length / 18,
            ({
                let res = seek_entries(d, p0, i as nat);
                &&& res is Some
                &&& res.unwrap().1 == reader.position()
                &&& table@ == old(table)@ + res.unwrap().0
            }),
        decreases count - i,
    {
        proof {
            reveal_with_fuel(be_val, 9);
        }
        let ghost q = reader.position() as int;
        let ghost prev = seek_entries(d, p0, i as nat).unwrap();
        let sample = match reader.read_be_u64() {
            Ok(v) => v,
            Err(e) => {
                proof {
                    lemma_seek_entries_none(d, p0, (i + 1) as nat, count as nat);
                }
                return Err(e);
            },
        };
        // A sample value of 0xFFFFFFFFFFFFFFFF is designated as a placeholder and is to be
        // ignored by decoders. The remaining 10 bytes of the seek point are undefined and must
        // still be consumed.
        if sample != 0xffff_ffff_ffff_ffff {
            let offset = match reader.read_be_u64() {
                Ok(v) => v,
                Err(e) => {
                    proof {
                        lemma_seek_entries_none(d, p0, (i + 1) as nat, count as nat);
                    }
                    return Err(e);
                },
            };
            let n_frames = match reader.read_be_u16() {
                Ok(v) => v,
                Err(e) => {
                    proof {
                        lemma_seek_entries_none(d, p0, (i + 1) as nat, count as nat);
                    }
                    return Err(e);
                },
            };
            table.insert(sample, offset, n_frames as u32);
            proof {
                assert(table@ =~= old(table)@ + prev.0.push(
                    SeekPoint { frame_ts: sample, byte_offset: offset, n_frames: n_frames as u32 },
                ));
            }
        } else {
            match reader.ignore_bytes(10) {
                Ok(()) => {},
                Err(e) => {
                    proof {
                        lemma_seek_entries_none(d, p0, (i + 1) as nat, count as nat);
                    }
                    return Err(e);
                },
            }
        }
        i = i + 1;
    }
    Ok(())
}

/// The index of the first zero byte of `b`, or its length if it has none.
pub open spec fn first_zero(b: Seq<u8>) -> int
    decreases b.len(),
{
    if b.len() == 0 {
        0
    } else if b[0] == 0 {
        0
    } else {
        1 + first_zero(b.drop_first())
    }
}

/// The characters of `b` up to its first zero byte, if they are all printable ASCII.
pub open spec fn printable_ascii(b: Seq<u8>) -> Option<Seq<char>> {
    let k = first_zero(b);
    if forall|i: int| 0 <= i < k ==> 0x20 <= #[trigger] b[i] <= 0x7e {
        Some(b.take(k).map_values(|c: u8| c as char))
    } else {
        None
    }
}

proof fn lemma_first_zero(b: Seq<u8>)
    ensures
        0 <= first_zero(b) <= b.len(),
        first_zero(b) < b.len() ==> b[first_zero(b)] == 0,
        forall|i: int| 0 <= i < first_zero(b) ==> b[i] != 0,
    decreases b.len(),
{
    if b.len() > 0 && b[0] != 0 {
        lemma_first_zero(b.drop_first());
        assert forall|i: int| 0 <= i < first_zero(b) implies b[i] != 0 by {
            if i > 0 {
                assert(b[i] == b.drop_first()[i - 1]);
            }
        }
    }
}

/// Calls `std::str::from_utf8` on bytes that are all ASCII, which always succeeds: every byte
/// is one character of the same code.
#[verifier::external_body]
pub(crate) fn ascii_str(bytes: &[u8]) -> (r: &str)
    requires
        forall|i: int| 0 <= i < bytes@.len() ==> #[trigger] bytes@[i] < 0x80,
    ensures
        r@ == bytes@.map_values(|c: u8| c as char),
{
    match std::str::from_utf8(bytes) {
        Ok(s) => s,
        Err(_) => "",
    }
}

/// Converts a string of bytes to an ASCII string if all characters are within the printable ASCII
/// range. If a null byte is encounted, the string terminates at that point.
pub fn printable_ascii_to_string(bytes: &[u8]) -> (r: Option<String>)
    ensures
        match printable_ascii(bytes@) {
            Some(s) => r matches Some(t) && t@ == s,
            None => r is None,
        },
{
    proof {
        lemma_first_zero(bytes@);
    }
    let mut i: usize = 0;
    while i < bytes.len()
        invariant
            i <= bytes@.len(),
            i <= first_zero(bytes@),
            first_zero(bytes@) <= bytes@.len(),
            first_zero(bytes@) < bytes@.len() ==> bytes@[first_zero(bytes@)] == 0,
            forall|k: int| 0 <= k < first_zero(bytes@) ==> bytes@[k] != 0,
            forall|k: int| 0 <= k < i ==> 0x20 <= #[trigger] bytes@[k] <= 0x7e,
        ensures
            i == first_zero(bytes@),
            forall|k: int| 0 <= k < i ==> 0x20 <= #[trigger] bytes@[k] <= 0x7e,
        decreases bytes@.len() - i,
    {
        let c = bytes[i];
        if c == 0 {
            break;
        }
        if c < 0x20 || c > 0x7e {
            assert(!(0x20 <= bytes@[i as int] <= 0x7e));
            return None;
        }
        i = i + 1;
    }
    proof {
        assert(i == first_zero(bytes@));
    }
    let (text, _rest) = bytes.split_at(i);
    let s = ascii_str(text);
    Some(s.to_owned())
}

/// The characters `std::ascii::escape_default` produces for a byte: printable ASCII as itself
/// (but for the quotes and the backslash, which are escaped), tab, carriage return and line feed
/// as `\t`, `\r` and `\n`, and any other byte as `\x` and two lowercase hexadecimal digits.
pub open spec fn escape_default(b: u8) -> Seq<u8> {
    if b == 0x09 {
        seq![0x5cu8, 0x74u8]
    } else if b == 0x0d {
        seq![0x5cu8, 0x72u8]
    } else if b == 0x0a {
        seq![0x5cu8, 0x6eu8]
    } else if b == 0x27 || b == 0x22 || b == 0x5c {
        seq![0x5cu8, b]
    } else if 0x20 <= b <= 0x7e {
        seq![b]
    } else {
        seq![0x5cu8, 0x78u8, hex_digit(b / 16), hex_digit(b % 16)]
    }
}

/// The lowercase hexadecimal digit of a value below 16.
pub open spec fn hex_digit(v: u8) -> u8 {
    if v < 10 {
        (0x30 + v) as u8
    } else {
        (0x57 + v) as u8
    }
}

/// The escaped form of every byte of `b`, in order.
pub open spec fn escape_all(b: Seq<u8>) -> Seq<u8>
    decreases b.len(),
{
    if b.len() == 0 {
        seq![]
    } else {
        escape_all(b.drop_last()) + escape_default(b.last())
    }
}

/// Appends the escaped form of `b` to `out`.
fn push_escaped(out: &mut Vec<u8>, b: u8)
    ensures
        final(out)@ == old(out)@ + escape_default(b),
{
    if b == 0x09 {
        out.push(0x5c);
        out.push(0x74);
    } else if b == 0x0d {
        out.push(0x5c);
        out.push(0x72);
    } else if b == 0x0a {
        out.push(0x5c);
        out.push(0x6e);
    } else if b == 0x27 || b == 0x22 || b == 0x5c {
        out.push(0x5c);
        out.push(b);
    } else if 0x20 <= b && b <= 0x7e {
        out.push(b);
    } else {
        let hi = b / 16;
        let lo = b % 16;
        out.push(0x5c);
        out.push(0x78);
        out.push(if hi < 10 { 0x30 + hi } else { 0x57 + hi });
        out.push(if lo < 10 { 0x30 + lo } else { 0x57 + lo });
    }
    assert(final(out)@ =~= old(out)@ + escape_default(b));
}

/// Every escaped byte is printable ASCII.
proof fn lemma_escape_all_ascii(b: Seq<u8>)
    ensures
        forall|i: int| 0 <= i < escape_all(b).len() ==> #[trigger] escape_all(b)[i] < 0x80,
    decreases b.len(),
{
    if b.len() > 0 {
        lemma_escape_all_ascii(b.drop_last());
        let e = escape_default(b.last());
        assert forall|i: int| 0 <= i < e.len() implies #[trigger] e[i] < 0x80 by {}
        assert forall|i: int| 0 <= i < escape_all(b).len() implies #[trigger] escape_all(b)[i]
            < 0x80 by {
            let prev = escape_all(b.drop_last());
            if i >= prev.len() {
                assert(escape_all(b)[i] == e[i - prev.len()]);
            } else {
                assert(escape_all(b)[i] == prev[i]);
            }
        }
    }
}

/// Data of an application, identified by a four byte identifier.
#[derive(Clone, Debug)]
pub struct VendorData {
    /// The identifier, with bytes that are not printable ASCII escaped.
    pub ident: String,
    /// The data.
    pub data: Vec<u8>,
}

/// Reads an application block of `block_length` bytes: a four byte application identifier, then
/// the application's data.
pub fn read_application_block(reader: &mut BufStream, block_length: u32) -> (r: Result<
    VendorData,
    Error,
>)
    requires
        block_length >= 4,
    ensures
        final(reader).data() == old(reader).data(),
        ({
            let d = old(reader).data();
            let p = old(reader).position() as int;
            &&& r is Ok <==> p + block_length <= d.len()
            &&& r matches Err(e) ==> e == eof()
            &&& r matches Ok(v) ==> {
                &&& v.ident@ == escape_all(d.subrange(p, p + 4)).map_values(|c: u8| c as char)
                &&& v.data@ == d.subrange(p + 4, p + block_length)
                &&& final(reader).position() == p + block_length
            }
        }),
{
    let ghost d = reader.data();
    let ghost p = reader.position() as int;
    // Read the application identifier. Usually this is just 4 ASCII characters, but it is not
    // limited to that. Non-printable ASCII characters are escaped to create a valid string.
    let ident_buf = reader.read_quad_bytes()?;
    let mut escaped: Vec<u8> = Vec::new();
    let mut i: usize = 0;
    while i < 4
        invariant
            i <= 4,
            ident_buf@.len() == 4,
            escaped@ == escape_all(ident_buf@.take(i as int)),
        decreases 4 - i,
    {
        push_escaped(&mut escaped, ident_buf[i]);
        proof {
            assert(ident_buf@.take(i + 1).drop_last() =~= ident_buf@.take(i as int));
        }
        i = i + 1;
    }
    proof {
        assert(ident_buf@.take(4) =~= ident_buf@);
        lemma_escape_all_ascii(ident_buf@);
    }
    let ident = ascii_str(escaped.as_slice()).to_owned();
    let data = reader.read_boxed_slice_bytes(block_length as usize - 4)?;
    Ok(VendorData { ident, data })
}

/// The big-endian 32-bit value at byte `i` of `d`.
pub open spec fn be32_at(d: Seq<u8>, i: int) -> nat {
    be_val(d.subrange(i, i + 4))
}

/// Where the fields of a PICTURE block that starts at byte `p` of `d` lie: the start of the media
/// type, of the description, of the fixed fields after it and of the picture data, and the end;
/// or the error of reading it: a read past the end of `d`, or a media type that is not printable
/// ASCII.
pub open spec fn picture_layout(d: Seq<u8>, p: int) -> Result<(int, int, int, int, int), Error> {
    if p + 8 > d.len() {
        Err(eof())
    } else {
        let q = p + 8 + be32_at(d, p + 4);
        if q > d.len() {
            Err(eof())
        } else if printable_ascii(d.subrange(p + 8, q)) is None {
            Err(Error::DecodeError("Picture mime-type contains invalid characters."))
        } else if q + 4 > d.len() {
            Err(eof())
        } else {
            let r = q + 4 + be32_at(d, q);
            if r + 20 > d.len() {
                Err(eof())
            } else {
                let e = r + 20 + be32_at(d, r + 16);
                if e > d.len() {
                    Err(eof())
                } else {
                    Ok((p + 8, q + 4, r, r + 20, e))
                }
            }
        }
    }
}

/// A picture of a PICTURE metadata block.
pub struct Picture {
    /// What the picture shows (the front cover, the artist, ...), as coded.
    pub usage: u32,
    /// The media type of the picture data.
    pub media_type: String,
    /// The description of the picture, as coded (UTF-8).
    pub description: Vec<u8>,
    /// The width and height of the picture, where both are stated.
    pub dimensions: Option<(u32, u32)>,
    /// The colour depth in bits per pixel, where it is stated.
    pub bits_per_pixel: Option<u32>,
    /// The number of colours of an indexed colour picture; none for other pictures.
    pub indexed_colours: Option<u32>,
    /// The picture data.
    pub data: Vec<u8>,
}

/// Whether `pic` holds the fields of the PICTURE block at byte `p` of `d`, laid out as `layout`
/// gives.
pub open spec fn picture_fields(pic: Picture, d: Seq<u8>, p: int, layout: (int, int, int, int, int)) -> bool {
    let (m, dsc, f, dat, e) = layout;
    let w = be32_at(d, f);
    let h = be32_at(d, f + 4);
    let bpp = be32_at(d, f + 8);
    let idx = be32_at(d, f + 12);
    &&& pic.usage == be32_at(d, p)
    &&& printable_ascii(d.subrange(m, dsc - 4)) == Some(pic.media_type@)
    &&& pic.description@ == d.subrange(dsc, f)
    &&& pic.dimensions == if w > 0 && h > 0 {
        Some((w as u32, h as u32))
    } else {
        None::<(u32, u32)>
    }
    &&& pic.bits_per_pixel == if bpp > 0 {
        Some(bpp as u32)
    } else {
        None::<u32>
    }
    &&& pic.indexed_colours == if idx > 0 {
        Some(idx as u32)
    } else {
        None::<u32>
    }
    &&& pic.data@ == d.subrange(dat, e)
}

/// Reads a PICTURE block: its usage, media type, description, dimensions, colour depth, number
/// of indexed colours and data. A media type that is not printable ASCII is an error.
pub fn read_picture_block(reader: &mut BufStream) -> (r: Result<Picture, Error>)
    ensures
        final(reader).data() == old(reader).data(),
        match picture_layout(old(reader).data(), old(reader).position() as int) {
            Ok(layout) => r matches Ok(pic) && picture_fields(
                pic,
                old(reader).data(),
                old(reader).position() as int,
                layout,
            ) && final(reader).position() == layout.4,
            Err(e) => r == Err::<Picture, Error>(e),
        },
{
    let ghost d = reader.data();
    let ghost p = reader.position() as int;
    proof {
        reader.lemma_position_bound();
    }
    let usage = reader.read_be_u32()?;
    // The media type.
    let media_type_len = reader.read_be_u32()? as usize;
    let media_type_buf = reader.read_boxed_slice_bytes(media_type_len)?;
    let media_type = match printable_ascii_to_string(media_type_buf.as_slice()) {
        Some(s) => s,
        None => return decode_error("Picture mime-type contains invalid characters."),
    };
    // The description.
    let desc_len = reader.read_be_u32()? as usize;
    let description = reader.read_boxed_slice_bytes(desc_len)?;
    // The width and height; either being 0 leaves the dimensions unstated.
    let width = reader.read_be_u32()?;
    let height = reader.read_be_u32()?;
    let dimensions = if width > 0 && height > 0 {
        Some((width, height))
    } else {
        None
    };
    let bpp = reader.read_be_u32()?;
    let bits_per_pixel = if bpp > 0 {
        Some(bpp)
    } else {
        None
    };
    // Indexed colours are only used by pictures with a palette; 0 means none.
    let indexed = reader.read_be_u32()?;
    let indexed_colours = if indexed > 0 {
        Some(indexed)
    } else {
        None
    };
    // The picture data.
    let data_len = reader.read_be_u32()? as usize;
    let data = reader.read_boxed_slice_bytes(data_len)?;
    Ok(Picture { usage, media_type, description, dimensions, bits_per_pixel, indexed_colours, data })
}

} // verus!
