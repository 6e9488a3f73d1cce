//! The chunks of a RIFF WAVE file.

use vstd::prelude::*;
use core::marker::PhantomData;
use crate::errors::{Error, decode_error, unsupported_error};
use crate::io::{BufStream, eof, le_val};

verus! {

/// A chunk type that can be recognized from the tag and length of a chunk header.
pub trait ParseChunkTag: Sized {
    /// Whether a chunk header with this tag and length is recognized.
    spec fn recognizes(tag: Seq<u8>, len: u32) -> bool;

    /// Whether this value stands for the chunk of a header with this tag and length.
    spec fn describes(self, tag: Seq<u8>, len: u32) -> bool;

    /// Recognizes a chunk from its tag and length.
    fn parse_tag(tag: &[u8; 4], len: u32) -> (r: Option<Self>)
        ensures
            r is Some <==> Self::recognizes(tag@, len),
            r matches Some(c) ==> c.describes(tag@, len),
    ;
}

/// Chunks that are never recognized.
pub struct NullChunks;

impl ParseChunkTag for NullChunks {
    open spec fn recognizes(tag: Seq<u8>, len: u32) -> bool {
        false
    }

    open spec fn describes(self, tag: Seq<u8>, len: u32) -> bool {
        false
    }

    fn parse_tag(_tag: &[u8; 4], _len: u32) -> (r: Option<Self>) {
        None
    }
}

/// What reading the next recognized chunk header of a parent chunk of `len` bytes, of which
/// `consumed` are read, from byte `p` of `d` gives: where the header of the recognized chunk
/// starts, if any, the position after the chunk header, and the bytes of the parent consumed; or
/// the error.
///
/// Reading aligns to an even number of consumed bytes, stops when no chunk header fits in the
/// parent, and skips the data of chunks that are not recognized.
pub open spec fn next_chunk<T: ParseChunkTag>(d: Seq<u8>, p: int, consumed: nat, len: nat) -> Result<
    (Option<int>, int, nat),
    Error,
>
    decreases len + 2 - consumed,
{
    if consumed % 2 == 1 && p + 1 > d.len() {
        Err(eof())
    } else {
        let (p1, c1) = if consumed % 2 == 1 {
            (p + 1, consumed + 1)
        } else {
            (p, consumed)
        };
        if c1 + 8 > len {
            Ok((None, p1, c1))
        } else if p1 + 8 > d.len() {
            Err(eof())
        } else {
            let tag = d.subrange(p1, p1 + 4);
            let clen = le_val(d.subrange(p1 + 4, p1 + 8));
            if c1 + 8 + clen > len {
                Err(Error::DecodeError("Info chunk length exceeds parent List chunk length."))
            } else {
                if T::recognizes(tag, clen as u32) {
                    Ok((Some(p1), p1 + 8, c1 + 8 + clen))
                } else {
                    if p1 + 8 + clen > d.len() {
                        Err(eof())
                    } else {
                        next_chunk::<T>(d, p1 + 8 + clen, c1 + 8 + clen, len)
                    }
                }
            }
        }
    }
}

/// `ChunksReader` reads the chunks contained within a parent chunk of `len` bytes.
pub struct ChunksReader<T: ParseChunkTag> {
    len: u32,
    consumed: u64,
    phantom: PhantomData<T>,
}

impl<T: ParseChunkTag> ChunksReader<T> {
    #[verifier::type_invariant]
    spec fn inv(self) -> bool {
        self.consumed <= self.len || (self.consumed == self.len + 1 && self.consumed % 2 == 0)
    }

    /// The length of the parent chunk.
    pub closed spec fn len_spec(&self) -> nat {
        self.len as nat
    }

    /// The bytes of the parent chunk read so far.
    pub closed spec fn consumed_spec(&self) -> nat {
        self.consumed as nat
    }

    /// A reader of a parent chunk of `len` bytes, none of them read.
    pub fn new(len: u32) -> (r: Self)
        ensures
            r.len_spec() == len,
            r.consumed_spec() == 0,
    {
        ChunksReader { len, consumed: 0, phantom: PhantomData }
    }

    /// Reads the next recognized chunk header of the parent chunk, skipping unrecognized chunks;
    /// `None` once no chunk header fits in the parent.
    pub fn next(&mut self, reader: &mut BufStream) -> (r: Result<Option<T>, Error>)
        ensures
            final(reader).data() == old(reader).data(),
            final(self).len_spec() == old(self).len_spec(),
            match next_chunk::<T>(
                old(reader).data(),
                old(reader).position() as int,
                old(self).consumed_spec(),
                old(self).len_spec(),
            ) {
                Ok((found, q, c)) => {
                    &&& match found {
                        Some(h) => r matches Ok(Some(chunk)) && chunk.describes(
                            old(reader).data().subrange(h, h + 4),
                            le_val(old(reader).data().subrange(h + 4, h + 8)) as u32,
                        ),
                        None => r == Ok::<Option<T>, Error>(None),
                    }
                    &&& final(reader).position() == q
                    &&& final(self).consumed_spec() == c
                },
                Err(e) => r == Err::<Option<T>, Error>(e),
            },
    {
        proof {
            use_type_invariant(&*self);
        }
        let ghost d = reader.data();
        let ghost p0 = reader.position() as int;
        let ghost c0 = self.consumed as nat;
        let ghost len0 = self.len as nat;
        // Loop until a chunk is recognized and returned, or the end of stream is reached.
        loop
            invariant
                reader.data() == d,
                d == old(reader).data(),
                self.len == len0,
                len0 == old(self).len_spec(),
                p0 == old(reader).position(),
                c0 == old(self).consumed_spec(),
                next_chunk::<T>(d, p0, c0, len0) == next_chunk::<T>(
                    d,
                    reader.position() as int,
                    self.consumed as nat,
                    len0,
                ),
            decreases self.len + 2 - self.consumed,
        {
            proof {
                reader.lemma_position_bound();
                use_type_invariant(&*self);
            }
            let ghost pos = reader.position() as int;
            let ghost cons = self.consumed as nat;
            // Align to the next 2-byte boundary if not currently aligned.
            if self.consumed % 2 == 1 {
                reader.read_u8()?;
                self.consumed = self.consumed + 1;
            }
            // Check if there are enough bytes for another chunk, if not, there are no more chunks.
            if self.consumed + 8 > self.len as u64 {
                return Ok(None);
            }
            // Read tag and len, the chunk header.
            let tag = reader.read_quad_bytes()?;
            let len = reader.read_u32()?;
            self.consumed = self.consumed + 8;
            // Check if the chunk length will exceed the parent chunk.
            if self.consumed + len as u64 > self.len as u64 {
                return decode_error("Info chunk length exceeds parent List chunk length.");
            }
            // "Consume" the chunk.
            self.consumed = self.consumed + len as u64;
            match T::parse_tag(&tag, len) {
                Some(chunk) => {
                    return Ok(Some(chunk));
                },
                None => {
                    // As per the RIFF spec, unknown chunks are to be ignored.
                    reader.ignore_bytes(len as u64)?;
                },
            }
        }
    }

    /// Skips what remains of the parent chunk, and the pad byte that follows a chunk of odd
    /// length.
    pub fn finish(&mut self, reader: &mut BufStream) -> (r: Result<(), Error>)
        ensures
            final(reader).data() == old(reader).data(),
            final(self).len_spec() == old(self).len_spec(),
            ({
                let d = old(reader).data();
                let p = old(reader).position();
                let rest: nat = if old(self).consumed_spec() < old(self).len_spec() {
                    (old(self).len_spec() - old(self).consumed_spec()) as nat
                } else {
                    0
                };
                let pad: nat = if old(self).len_spec() % 2 == 1 { 1 } else { 0 };
                if p + rest + pad <= d.len() {
                    r is Ok && final(reader).position() == p + rest + pad
                } else {
                    r == Err::<(), Error>(eof())
                }
            }),
    {
        proof {
            use_type_invariant(&*self);
            reader.lemma_position_bound();
        }
        // If data is remaining in this chunk, skip it.
        if self.consumed < self.len as u64 {
            let remaining = self.len as u64 - self.consumed;
            reader.ignore_bytes(remaining)?;
            self.consumed = self.consumed + remaining;
        }
        // Pad the chunk to the next 2-byte boundary.
        if self.len % 2 == 1 {
            reader.read_u8()?;
        }
        Ok(())
    }
}


/// The format specific data of a format chunk.
#[derive(Copy, Clone, Debug)]
pub enum WaveFormatData {
    Pcm(WaveFormatPcm),
    IeeeFloat,
    Extensible(WaveFormatExtensible),
}

/// The format data of the PCM format.
#[derive(Copy, Clone, Debug)]
pub struct WaveFormatPcm {
    /// The number of bits per sample. In the PCM format, this is always a multiple of 8-bits.
    pub bits_per_sample: u16,
}

/// The format data of the Extensible format.
#[derive(Copy, Clone, Debug)]
pub struct WaveFormatExtensible {
    /// The number of bits per sample rounded up to the nearest 8-bits.
    pub bits_per_sample: u16,
    /// The number of bits per sample.
    pub bits_per_coded_sample: u16,
    /// Mask of channels.
    pub channel_mask: u32,
    /// Globally unique identifier of the format.
    pub sub_format_guid: [u8; 16],
}

/// The format chunk of a WAVE file.
#[derive(Copy, Clone, Debug)]
pub struct WaveFormatChunk {
    /// The number of channels.
    pub n_channels: u16,
    /// The sample rate in Hz. For non-PCM formats, this value must be interpreted as per the
    /// format's specifications.
    pub sample_rate: u32,
    /// The required average data rate required in bytes/second. For non-PCM formats, this value
    /// must be interpreted as per the format's specifications.
    pub avg_bytes_per_sec: u32,
    /// The byte alignment of one audio frame. For PCM formats, this is equal to
    /// `(n_channels * extra_data.bits_per_sample) / 8`. For non-PCM formats, this value must be
    /// interpreted as per the format's specifications.
    pub block_align: u16,
    /// Extra data associated with the format block conditional upon the format tag.
    pub format_data: WaveFormatData,
}

/// The little-endian value of the `n` bytes at byte `q` of `d`.
pub open spec fn le_at(d: Seq<u8>, q: int, n: int) -> nat {
    le_val(d.subrange(q, q + n))
}

/// The sub-format GUID of PCM data, from ksmedia.h of the Microsoft Windows Platform SDK.
pub open spec fn guid_pcm() -> Seq<u8> {
    seq![0x01u8, 0x00, 0x00, 0x00, 0x00, 0x00, 0x10, 0x00, 0x80, 0x00, 0x00, 0xaa, 0x00, 0x38, 0x9b, 0x71]
}

/// The sub-format GUID of IEEE floating point data.
pub open spec fn guid_ieee_float() -> Seq<u8> {
    seq![0x03u8, 0x00, 0x00, 0x00, 0x00, 0x00, 0x10, 0x00, 0x80, 0x00, 0x00, 0xaa, 0x00, 0x38, 0x9b, 0x71]
}

/// Where the PCM format data of a format chunk of `len` bytes, read from byte `q` of `d`, ends;
/// or the error.
pub open spec fn pcm_fmt_status(d: Seq<u8>, q: int, bits_per_sample: u16, len: u32) -> Result<int, Error> {
    if len != 16 && len != 18 && len != 40 {
        Err(Error::DecodeError("Malformed PCM fmt chunk."))
    } else {
        let end = if len == 16 {
            Ok(q)
        } else if q + 2 > d.len() {
            Err(eof())
        } else if q + 2 + le_at(d, q, 2) > d.len() {
            Err(eof())
        } else {
            Ok(q + 2 + le_at(d, q, 2))
        };
        match end {
            Err(e) => Err(e),
            Ok(q1) => if bits_per_sample > 32 || bits_per_sample % 8 != 0 {
                Err(Error::DecodeError("Bits per sample for PCM Wave Format must either be 8 or 16 bits."))
            } else {
                Ok(q1)
            },
        }
    }
}

/// The error reading the IEEE float format data of a format chunk of `len` bytes from byte `q`
/// of `d` gives: every such chunk is refused, as no sample width passes its check.
pub open spec fn ieee_fmt_error(d: Seq<u8>, q: int, len: u32) -> Error {
    if len == 18 {
        if q + 2 > d.len() {
            eof()
        } else if le_at(d, q, 2) != 0 {
            Error::DecodeError("Extra data not expected for IEEE fmt chunk.")
        } else {
            Error::DecodeError("Bits per sample for IEEE Wave Format must be 32-bits.")
        }
    } else if len > 16 {
        Error::DecodeError("Malformed IEEE fmt chunk.")
    } else {
        Error::DecodeError("Bits per sample for IEEE Wave Format must be 32-bits.")
    }
}

/// Where the Extensible format data of a format chunk of `len` bytes, read from byte `q` of `d`,
/// ends; or the error.
pub open spec fn ext_fmt_status(d: Seq<u8>, q: int, bits_per_sample: u16, len: u32) -> Result<int, Error> {
    if len < 40 {
        Err(Error::DecodeError("Malformed Extensible fmt chunk."))
    } else if q + 2 > d.len() {
        Err(eof())
    } else if le_at(d, q, 2) != 22 {
        Err(Error::DecodeError("Extra data size not 22 bytes for Extensible fmt chunk."))
    } else if bits_per_sample % 8 > 0 {
        Err(Error::DecodeError("Bits per sample for Extensible Wave Format must be a multiple of 8 bits."))
    } else if q + 24 > d.len() {
        Err(eof())
    } else if d.subrange(q + 8, q + 24) != guid_pcm() && d.subrange(q + 8, q + 24) != guid_ieee_float() {
        Err(Error::Unsupported("Unsupported Wave Format."))
    } else {
        Ok(q + 24)
    }
}

/// Where a format chunk of `len` bytes read from byte `p` of `d` ends, or the error.
pub open spec fn fmt_status(d: Seq<u8>, p: int, len: u32) -> Result<int, Error> {
    if len < 16 {
        Err(Error::DecodeError("Malformed fmt chunk."))
    } else if p + 16 > d.len() {
        Err(eof())
    } else {
        let format = le_at(d, p, 2);
        let bps = le_at(d, p + 14, 2) as u16;
        if format == 1 {
            pcm_fmt_status(d, p + 16, bps, len)
        } else if format == 3 {
            Err(ieee_fmt_error(d, p + 16, len))
        } else if format == 0xfffe {
            ext_fmt_status(d, p + 16, bps, len)
        } else {
            Err(Error::Unsupported("Unsupported Wave Format."))
        }
    }
}

/// The fields of a format chunk read from byte `p` of `d`.
pub open spec fn fmt_fields(c: WaveFormatChunk, d: Seq<u8>, p: int) -> bool {
    let bps = le_at(d, p + 14, 2);
    &&& c.n_channels == le_at(d, p + 2, 2)
    &&& c.sample_rate == le_at(d, p + 4, 4)
    &&& c.avg_bytes_per_sec == le_at(d, p + 8, 4)
    &&& c.block_align == le_at(d, p + 12, 2)
    &&& match c.format_data {
        WaveFormatData::Pcm(pcm) => le_at(d, p, 2) == 1 && pcm.bits_per_sample == bps,
        WaveFormatData::IeeeFloat => false,
        WaveFormatData::Extensible(ext) => {
            &&& le_at(d, p, 2) == 0xfffe
            &&& ext.bits_per_sample == bps
            &&& ext.bits_per_coded_sample == le_at(d, p + 18, 2)
            &&& ext.channel_mask == le_at(d, p + 20, 4)
            &&& ext.sub_format_guid@ == d.subrange(p + 24, p + 40)
        },
    }
}

/// A chunk that can be parsed from its data.
pub trait ParseChunk: Sized {
    /// Where a chunk of `len` bytes read from byte `p` of `d` ends, or the error.
    spec fn parse_status(d: Seq<u8>, p: int, len: u32) -> Result<int, Error>;

    /// The fields of a chunk read from byte `p` of `d`.
    spec fn parse_fields(self, d: Seq<u8>, p: int, len: u32) -> bool;

    /// Parses a chunk of `len` bytes with the given tag.
    fn parse(reader: &mut BufStream, tag: [u8; 4], len: u32) -> (r: Result<Self, Error>)
        ensures
            final(reader).data() == old(reader).data(),
            match Self::parse_status(old(reader).data(), old(reader).position() as int, len) {
                Ok(q) => r matches Ok(c) && c.parse_fields(old(reader).data(), old(reader).position() as int, len)
                    && final(reader).position() == q,
                Err(e) => r == Err::<Self, Error>(e),
            },
    ;
}

fn read_pcm_fmt(reader: &mut BufStream, bits_per_sample: u16, len: u32) -> (r: Result<WaveFormatData, Error>)
    ensures
        final(reader).data() == old(reader).data(),
        match pcm_fmt_status(old(reader).data(), old(reader).position() as int, bits_per_sample, len) {
            Ok(q) => r matches Ok(WaveFormatData::Pcm(pcm)) && pcm.bits_per_sample == bits_per_sample
                && final(reader).position() == q,
            Err(e) => r == Err::<WaveFormatData, Error>(e),
        },
{
    // WaveFormat for a PCM format /may/ be extended with an extra data length parameter followed
    // by the extra data itself. Use the chunk length to determine if the format chunk is extended.
    let is_extended = match len {
        // Minimal WavFormat struct, no extension.
        16 => false,
        // WaveFormatEx with exta data length field present, but not extra data.
        18 => true,
        // WaveFormatEx with extra data length field and extra data.
        40 => true,
        _ => return decode_error("Malformed PCM fmt chunk."),
    };
    // If there is extra data, read the length, and discard the extra data.
    if is_extended {
        let extra_size = reader.read_u16()?;
        if extra_size > 0 {
            reader.ignore_bytes(extra_size as u64)?;
        }
    }
    // Bits per sample for PCM is both the decoded width, and actual sample width. Strictly, this
    // must either be 8 or 16 bits, but there is no reason why 24 and 32 bits can't be supported.
    // Since these files do exist, allow 8/16/24/32-bit, but error if not a multiple of 8 or
    // greater than 32-bits.
    proof {
        assert((bits_per_sample & 0x7 != 0) == (bits_per_sample % 8 != 0)) by (bit_vector);
    }
    if (bits_per_sample > 32) || (bits_per_sample & 0x7 != 0) {
        return decode_error("Bits per sample for PCM Wave Format must either be 8 or 16 bits.");
    }
    Ok(WaveFormatData::Pcm(WaveFormatPcm { bits_per_sample }))
}

fn read_ieee_fmt(reader: &mut BufStream, bits_per_sample: u16, len: u32) -> (r: Result<WaveFormatData, Error>)
    ensures
        final(reader).data() == old(reader).data(),
        r == Err::<WaveFormatData, Error>(ieee_fmt_error(old(reader).data(), old(reader).position() as int, len)),
{
    // WaveFormat for a IEEE format should not be extended, but it may still have an extra data
    // length parameter.
    if len == 18 {
        let extra_size = reader.read_u16()?;
        if extra_size != 0 {
            return decode_error("Extra data not expected for IEEE fmt chunk.");
        }
    } else if len > 16 {
        return decode_error("Malformed IEEE fmt chunk.");
    }
    // No sample width is both 32 and 64 bits, so the comparison rejects every IEEE float format.
    if bits_per_sample != 32 || bits_per_sample != 64 {
        return decode_error("Bits per sample for IEEE Wave Format must be 32-bits.");
    }
    Ok(WaveFormatData::IeeeFloat)
}

fn guid_matches(g: &[u8; 16], want: &[u8; 16]) -> (r: bool)
    ensures
        r == (g@ == want@),
{
    let mut i: usize = 0;
    while i < 16
        invariant
            i <= 16,
            forall|j: int| 0 <= j < i ==> g@[j] == want@[j],
        decreases 16 - i,
    {
        if g[i] != want[i] {
            return false;
        }
        i = i + 1;
    }
    assert(g@ =~= want@);
    true
}

fn read_ext_fmt(reader: &mut BufStream, bits_per_sample: u16, len: u32) -> (r: Result<WaveFormatData, Error>)
    ensures
        final(reader).data() == old(reader).data(),
        ({
            let d = old(reader).data();
            let q = old(reader).position() as int;
            match ext_fmt_status(d, q, bits_per_sample, len) {
                Ok(end) => r matches Ok(WaveFormatData::Extensible(ext)) && ext.bits_per_sample == bits_per_sample
                    && ext.bits_per_coded_sample == le_at(d, q + 2, 2) && ext.channel_mask == le_at(d, q + 4, 4)
                    && ext.sub_format_guid@ == d.subrange(q + 8, q + 24) && final(reader).position() == end,
                Err(e) => r == Err::<WaveFormatData, Error>(e),
            }
        }),
{
    // WaveFormat for the extensible format must be extended to 40 bytes in length.
    if len < 40 {
        return decode_error("Malformed Extensible fmt chunk.");
    }
    let extra_size = reader.read_u16()?;
    // The size of the extra data for the Extensible format is exactly 22 bytes.
    if extra_size != 22 {
        return decode_error("Extra data size not 22 bytes for Extensible fmt chunk.");
    }
    // Bits per sample for extensible formats is the decoded "container" width per sample. This
    // must be a multiple of 8.
    if bits_per_sample % 8 > 0 {
        return decode_error("Bits per sample for Extensible Wave Format must be a multiple of 8 bits.");
    }
    let bits_per_coded_sample = reader.read_u16()?;
    let channel_mask = reader.read_u32()?;
    let mut sub_format_guid = [0u8; 16];
    reader.read_buf_bytes(&mut sub_format_guid)?;
    // These GUIDs identifiy the format of the data chunks. These definitions can be found in
    // ksmedia.h of the Microsoft Windows Platform SDK.
    let pcm: [u8; 16] = [0x01, 0x00, 0x00, 0x00, 0x00, 0x00, 0x10, 0x00, 0x80, 0x00, 0x00, 0xaa, 0x00, 0x38, 0x9b, 0x71];
    let ieee: [u8; 16] = [0x03, 0x00, 0x00, 0x00, 0x00, 0x00, 0x10, 0x00, 0x80, 0x00, 0x00, 0xaa, 0x00, 0x38, 0x9b, 0x71];
    assert(pcm@ =~= guid_pcm());
    assert(ieee@ =~= guid_ieee_float());
    // Verify support based on the format GUID.
    if !guid_matches(&sub_format_guid, &pcm) && !guid_matches(&sub_format_guid, &ieee) {
        return unsupported_error("Unsupported Wave Format.");
    }
    Ok(
        WaveFormatData::Extensible(
            WaveFormatExtensible { bits_per_sample, bits_per_coded_sample, channel_mask, sub_format_guid },
        ),
    )
}

impl ParseChunk for WaveFormatChunk {
    open spec fn parse_status(d: Seq<u8>, p: int, len: u32) -> Result<int, Error> {
        fmt_status(d, p, len)
    }

    open spec fn parse_fields(self, d: Seq<u8>, p: int, len: u32) -> bool {
        fmt_fields(self, d, p)
    }

    fn parse(reader: &mut BufStream, _tag: [u8; 4], len: u32) -> (r: Result<WaveFormatChunk, Error>) {
        // WaveFormat has a minimal length of 16 bytes. This may be extended with format specific
        // data later.
        if len < 16 {
            return decode_error("Malformed fmt chunk.");
        }
        let format = reader.read_u16()?;
        let n_channels = reader.read_u16()?;
        let sample_rate = reader.read_u32()?;
        let avg_bytes_per_sec = reader.read_u32()?;
        let block_align = reader.read_u16()?;
        let bits_per_sample = reader.read_u16()?;
        // The definition of these format identifiers can be found in mmreg.h of the Microsoft
        // Windows Platform SDK.
        let format_data = match format {
            // The PCM Wave Format
            1 => read_pcm_fmt(reader, bits_per_sample, len),
            // The IEEE Float Wave Format
            3 => read_ieee_fmt(reader, bits_per_sample, len),
            // The Extensible Wave Format
            0xfffe => read_ext_fmt(reader, bits_per_sample, len),
            // Unsupported format.
            _ => unsupported_error("Unsupported Wave Format."),
        }?;
        Ok(WaveFormatChunk { n_channels, sample_rate, avg_bytes_per_sec, block_align, format_data })
    }
}

/// The fact chunk of a WAVE file.
#[derive(Copy, Clone, Debug)]
pub struct FactChunk {
    pub n_frames: u32,
}

impl ParseChunk for FactChunk {
    open spec fn parse_status(d: Seq<u8>, p: int, len: u32) -> Result<int, Error> {
        if len != 4 {
            Err(Error::DecodeError("Malformed fact chunk."))
        } else if p + 4 > d.len() {
            Err(eof())
        } else {
            Ok(p + 4)
        }
    }

    open spec fn parse_fields(self, d: Seq<u8>, p: int, len: u32) -> bool {
        self.n_frames == le_at(d, p, 4)
    }

    fn parse(reader: &mut BufStream, _tag: [u8; 4], len: u32) -> (r: Result<Self, Error>) {
        // A Fact chunk is exactly 4 bytes long, though there is some mystery as to whether there
        // can be more fields in the chunk.
        if len != 4 {
            return decode_error("Malformed fact chunk.");
        }
        Ok(FactChunk { n_frames: reader.read_u32()? })
    }
}

/// A list chunk of a WAVE file: its form, and the length of what follows it.
#[derive(Copy, Clone, Debug)]
pub struct ListChunk {
    pub form: [u8; 4],
    pub len: u32,
}

impl ParseChunk for ListChunk {
    open spec fn parse_status(d: Seq<u8>, p: int, len: u32) -> Result<int, Error> {
        if len < 4 {
            Err(Error::DecodeError("Malformed list chunk."))
        } else if p + 4 > d.len() {
            Err(eof())
        } else {
            Ok(p + 4)
        }
    }

    open spec fn parse_fields(self, d: Seq<u8>, p: int, len: u32) -> bool {
        self.form@ == d.subrange(p, p + 4) && self.len == len - 4
    }

    fn parse(reader: &mut BufStream, _tag: [u8; 4], len: u32) -> (r: Result<Self, Error>) {
        // A List chunk must contain atleast the list/form identifier. However, an empty list
        // (len = 4) is permissible.
        if len < 4 {
            return decode_error("Malformed list chunk.");
        }
        Ok(ListChunk { form: reader.read_quad_bytes()?, len: len - 4 })
    }
}

impl ListChunk {
    /// Skips the contents of the list, and its pad byte.
    pub fn skip(&self, reader: &mut BufStream) -> (r: Result<(), Error>)
        ensures
            final(reader).data() == old(reader).data(),
            ({
                let d = old(reader).data();
                let p = old(reader).position();
                let n: nat = self.len as nat + if self.len % 2 == 1 { 1nat } else { 0nat };
                if p + n <= d.len() {
                    r is Ok && final(reader).position() == p + n
                } else {
                    r == Err::<(), Error>(eof())
                }
            }),
    {
        let mut chunks = ChunksReader::<NullChunks>::new(self.len);
        chunks.finish(reader)
    }
}

/// A chunk recognized from its header, to be parsed from its data.
pub struct ChunkParser<P: ParseChunk> {
    tag: [u8; 4],
    len: u32,
    phantom: PhantomData<P>,
}

impl<P: ParseChunk> ChunkParser<P> {
    /// The length of the chunk's data.
    pub closed spec fn len_spec(&self) -> u32 {
        self.len
    }

    fn new(tag: [u8; 4], len: u32) -> (r: Self)
        ensures
            r.len_spec() == len,
    {
        ChunkParser { tag, len, phantom: PhantomData }
    }

    /// Parses the chunk's data.
    pub fn parse(&self, reader: &mut BufStream) -> (r: Result<P, Error>)
        ensures
            final(reader).data() == old(reader).data(),
            match P::parse_status(old(reader).data(), old(reader).position() as int, self.len_spec()) {
                Ok(q) => r matches Ok(c) && c.parse_fields(old(reader).data(), old(reader).position() as int, self.len_spec())
                    && final(reader).position() == q,
                Err(e) => r == Err::<P, Error>(e),
            },
    {
        P::parse(reader, self.tag, self.len)
    }
}

/// The chunks of a RIFF WAVE file.
pub enum RiffWaveChunks {
    Format(ChunkParser<WaveFormatChunk>),
    List(ChunkParser<ListChunk>),
    Fact(ChunkParser<FactChunk>),
    Data,
}

/// Which chunk of a RIFF WAVE file a tag names: 0 for the format, 1 for a list, 2 for the fact
/// chunk, 3 for the data, or none.
pub open spec fn riff_wave_kind(tag: Seq<u8>) -> Option<nat> {
    if tag == seq![0x66u8, 0x6d, 0x74, 0x20] {
        Some(0)
    } else if tag == seq![0x4cu8, 0x49, 0x53, 0x54] {
        Some(1)
    } else if tag == seq![0x66u8, 0x61, 0x63, 0x74] {
        Some(2)
    } else if tag == seq![0x64u8, 0x61, 0x74, 0x61] {
        Some(3)
    } else {
        None
    }
}

impl ParseChunkTag for RiffWaveChunks {
    open spec fn recognizes(tag: Seq<u8>, len: u32) -> bool {
        riff_wave_kind(tag) is Some
    }

    open spec fn describes(self, tag: Seq<u8>, len: u32) -> bool {
        match self {
            RiffWaveChunks::Format(cp) => riff_wave_kind(tag) == Some(0nat) && cp.len_spec() == len,
            RiffWaveChunks::List(cp) => riff_wave_kind(tag) == Some(1nat) && cp.len_spec() == len,
            RiffWaveChunks::Fact(cp) => riff_wave_kind(tag) == Some(2nat) && cp.len_spec() == len,
            RiffWaveChunks::Data => riff_wave_kind(tag) == Some(3nat),
        }
    }

    fn parse_tag(tag: &[u8; 4], len: u32) -> (r: Option<Self>) {
        let t = *tag;
        if t[0] == 0x66 && t[1] == 0x6d && t[2] == 0x74 && t[3] == 0x20 {
            assert(tag@ =~= seq![0x66u8, 0x6d, 0x74, 0x20]);
            Some(RiffWaveChunks::Format(ChunkParser::new(t, len)))
        } else if t[0] == 0x4c && t[1] == 0x49 && t[2] == 0x53 && t[3] == 0x54 {
            assert(tag@ =~= seq![0x4cu8, 0x49, 0x53, 0x54]);
            Some(RiffWaveChunks::List(ChunkParser::new(t, len)))
        } else if t[0] == 0x66 && t[1] == 0x61 && t[2] == 0x63 && t[3] == 0x74 {
            assert(tag@ =~= seq![0x66u8, 0x61, 0x63, 0x74]);
            Some(RiffWaveChunks::Fact(ChunkParser::new(t, len)))
        } else if t[0] == 0x64 && t[1] == 0x61 && t[2] == 0x74 && t[3] == 0x61 {
            assert(tag@ =~= seq![0x64u8, 0x61, 0x74, 0x61]);
            Some(RiffWaveChunks::Data)
        } else {
            proof {
                assert(tag@ != seq![0x66u8, 0x6d, 0x74, 0x20] && tag@ != seq![0x4cu8, 0x49, 0x53, 0x54]
                    && tag@ != seq![0x66u8, 0x61, 0x63, 0x74] && tag@ != seq![0x64u8, 0x61, 0x74, 0x61]) by {
                    if tag@ == seq![0x66u8, 0x6d, 0x74, 0x20] {
                        assert(tag@[0] == 0x66 && tag@[1] == 0x6d && tag@[2] == 0x74 && tag@[3] == 0x20);
                    }
                    if tag@ == seq![0x4cu8, 0x49, 0x53, 0x54] {
                        assert(tag@[0] == 0x4c && tag@[1] == 0x49 && tag@[2] == 0x53 && tag@[3] == 0x54);
                    }
                    if tag@ == seq![0x66u8, 0x61, 0x63, 0x74] {
                        assert(tag@[0] == 0x66 && tag@[1] == 0x61 && tag@[2] == 0x63 && tag@[3] == 0x74);
                    }
                    if tag@ == seq![0x64u8, 0x61, 0x74, 0x61] {
                        assert(tag@[0] == 0x64 && tag@[1] == 0x61 && tag@[2] == 0x74 && tag@[3] == 0x61);
                    }
                }
            }
            None
        }
    }
}

/// An entry of an INFO list: its value, as coded.
#[derive(Clone, Debug)]
pub struct InfoChunk {
    /// The bytes of the entry's value.
    pub value: Vec<u8>,
}

impl ParseChunk for InfoChunk {
    open spec fn parse_status(d: Seq<u8>, p: int, len: u32) -> Result<int, Error> {
        if p + len > d.len() {
            Err(eof())
        } else {
            Ok(p + len)
        }
    }

    open spec fn parse_fields(self, d: Seq<u8>, p: int, len: u32) -> bool {
        self.value@ == d.subrange(p, p + len)
    }

    fn parse(reader: &mut BufStream, _tag: [u8; 4], len: u32) -> (r: Result<Self, Error>) {
        let value = reader.read_boxed_slice_bytes(len as usize)?;
        Ok(InfoChunk { value })
    }
}

/// The chunks of an INFO list: every chunk is taken for an entry.
pub enum RiffInfoListChunks {
    Info(ChunkParser<InfoChunk>),
}

impl ParseChunkTag for RiffInfoListChunks {
    open spec fn recognizes(tag: Seq<u8>, len: u32) -> bool {
        true
    }

    open spec fn describes(self, tag: Seq<u8>, len: u32) -> bool {
        match self {
            RiffInfoListChunks::Info(cp) => cp.len_spec() == len,
        }
    }

    fn parse_tag(tag: &[u8; 4], len: u32) -> (r: Option<Self>) {
        Some(RiffInfoListChunks::Info(ChunkParser::new(*tag, len)))
    }
}

} // verus!
