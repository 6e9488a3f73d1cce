//! The reader of RIFF WAVE files: finds the stream's format and the start of its audio data.

use vstd::prelude::*;
use crate::codecs::CodecParameters;
use crate::errors::{Error, SeekErrorKind, seek_error, unsupported_error, decode_error};
use crate::formats::Stream;
use crate::io::{BufStream, FiniteStream, eof, le_val};
use crate::wav::chunks::{
    ChunksReader, ParseChunkTag, RiffInfoListChunks, RiffWaveChunks, WaveFormatChunk,
    WaveFormatData, next_chunk, riff_wave_kind, fmt_status, fmt_fields, le_at,
};

verus! {

/// The most frames a packet of a WAVE stream holds.
pub const WAVE_MAX_FRAMES_PER_PACKET: u64 = 4096;

/// A recognized chunk header moves the parent's consumed count on by at least its own 8 bytes.
pub proof fn lemma_next_chunk_progress<T: ParseChunkTag>(d: Seq<u8>, p: int, consumed: nat, len: nat)
    ensures
        next_chunk::<T>(d, p, consumed, len) matches Ok((Some(h), q, c)) ==> c >= consumed + 8
            && c <= len && q == h + 8 && h + 8 <= d.len() && p <= h,
        next_chunk::<T>(d, p, consumed, len) matches Ok((_, q, c)) ==> p <= q,
    decreases len + 2 - consumed,
{
    let (p1, c1) = if consumed % 2 == 1 {
        (p + 1, consumed + 1)
    } else {
        (p, consumed)
    };
    if consumed % 2 == 1 && p + 1 > d.len() {
    } else if c1 + 8 > len {
    } else if p1 + 8 > d.len() {
    } else {
        let clen = le_val(d.subrange(p1 + 4, p1 + 8));
        if c1 + 8 + clen > len {
        } else if T::recognizes(d.subrange(p1, p1 + 4), clen as u32) {
        } else if p1 + 8 + clen > d.len() {
        } else {
            lemma_next_chunk_progress::<T>(d, p1 + 8 + clen, c1 + 8 + clen, len);
        }
    }
}

/// Where skipping the rest of a parent chunk of `len` bytes, of which `consumed` are read, and
/// its pad byte, from byte `q` of `d` ends; or the error.
pub open spec fn finish_end(d: Seq<u8>, q: int, consumed: nat, len: nat) -> Result<int, Error> {
    let rest: int = if consumed < len {
        len - consumed
    } else {
        0
    };
    let pad: int = if len % 2 == 1 {
        1
    } else {
        0
    };
    if q + rest + pad <= d.len() {
        Ok(q + rest + pad)
    } else {
        Err(eof())
    }
}

/// Where reading the entries of an INFO list of `len` bytes, `consumed` of them read, from byte
/// `p` of `d` ends: each entry's value is read, then the rest of the list is skipped.
pub open spec fn info_list_end(d: Seq<u8>, p: int, consumed: nat, len: nat) -> Result<int, Error>
    decreases len + 2 - consumed,
{
    match next_chunk::<RiffInfoListChunks>(d, p, consumed, len) {
        Err(e) => Err(e),
        Ok((None, q, c)) => finish_end(d, q, c, len),
        Ok((Some(h), q, c)) => {
            proof {
                lemma_next_chunk_progress::<RiffInfoListChunks>(d, p, consumed, len);
            }
            let clen = le_val(d.subrange(h + 4, h + 8));
            if q + clen > d.len() {
                Err(eof())
            } else {
                info_list_end(d, q + clen, c, len)
            }
        },
    }
}

/// The form of an INFO list.
pub open spec fn info_form() -> Seq<u8> {
    seq![0x49u8, 0x4e, 0x46, 0x4f]
}

/// The codec parameters after a format chunk whose data starts at byte `q` of `d`: the sample
/// rate, the packet size, and the sample widths of the PCM or Extensible format.
pub open spec fn format_params(params: CodecParameters, d: Seq<u8>, q: int) -> CodecParameters {
    let bps = le_at(d, q + 14, 2) as u32;
    let coded = if le_at(d, q, 2) == 0xfffe {
        le_at(d, q + 18, 2) as u32
    } else {
        bps
    };
    CodecParameters {
        max_frames_per_packet: Some(WAVE_MAX_FRAMES_PER_PACKET),
        sample_rate: Some(le_at(d, q + 4, 4) as u32),
        bits_per_coded_sample: Some(coded),
        bits_per_sample: Some(bps),
        ..params
    }
}

/// What reading the chunk whose header starts at byte `h` of `d`, and whose data starts at `q`,
/// gives, with the codec parameters and frame length found so far: whether it is the data chunk,
/// the position after what is read of it, and the codec parameters and frame length; or the
/// error. A format chunk sets the parameters and the frame length, a fact chunk the number of
/// frames; an INFO list's entries are read and a list of another form is skipped.
pub open spec fn wave_chunk_effect(
    d: Seq<u8>,
    h: int,
    q: int,
    params: CodecParameters,
    frame_len: u16,
) -> Result<(bool, int, CodecParameters, u16), Error> {
    let kind = riff_wave_kind(d.subrange(h, h + 4));
    let clen = le_val(d.subrange(h + 4, h + 8)) as u32;
    if kind == Some(0nat) {
        match fmt_status(d, q, clen) {
            Err(e) => Err(e),
            Ok(q2) => Ok((false, q2, format_params(params, d, q), le_at(d, q + 12, 2) as u16)),
        }
    } else if kind == Some(1nat) {
        if clen < 4 {
            Err(Error::DecodeError("Malformed list chunk."))
        } else if q + 4 > d.len() {
            Err(eof())
        } else {
            let end = if d.subrange(q, q + 4) == info_form() {
                info_list_end(d, q + 4, 0, (clen - 4) as nat)
            } else {
                finish_end(d, q + 4, 0, (clen - 4) as nat)
            };
            match end {
                Err(e) => Err(e),
                Ok(q2) => Ok((false, q2, params, frame_len)),
            }
        }
    } else if kind == Some(2nat) {
        if clen != 4 {
            Err(Error::DecodeError("Malformed fact chunk."))
        } else if q + 4 > d.len() {
            Err(eof())
        } else {
            Ok(
                (
                    false,
                    q + 4,
                    CodecParameters { n_frames: Some(le_at(d, q, 4) as u64), ..params },
                    frame_len,
                ),
            )
        }
    } else {
        Ok((true, q, params, frame_len))
    }
}

/// Reading the chunks of the RIFF chunk of `len` bytes, `consumed` of them read, from byte `p` of
/// `d`, with the codec parameters and frame length found so far, up to the data chunk: where its
/// audio data starts, the codec parameters and the frame length; or the error.
pub open spec fn wave_chunks(
    d: Seq<u8>,
    p: int,
    consumed: nat,
    len: nat,
    params: CodecParameters,
    frame_len: u16,
) -> Result<(int, CodecParameters, u16), Error>
    decreases len + 2 - consumed,
{
    match next_chunk::<RiffWaveChunks>(d, p, consumed, len) {
        Err(e) => Err(e),
        Ok((None, _, _)) => Err(Error::Unsupported("missing data chunk")),
        Ok((Some(h), q, c)) => {
            proof {
                lemma_next_chunk_progress::<RiffWaveChunks>(d, p, consumed, len);
            }
            match wave_chunk_effect(d, h, q, params, frame_len) {
                Err(e) => Err(e),
                Ok((true, q2, pr, f)) => Ok((q2, pr, f)),
                Ok((false, q2, pr, f)) => wave_chunks(d, q2, c, len, pr, f),
            }
        },
    }
}

/// The codec parameters that state nothing.
pub open spec fn empty_params() -> CodecParameters {
    CodecParameters {
        codec: crate::codecs::CodecType::Null,
        sample_rate: None,
        n_frames: None,
        sample_format: None,
        bits_per_sample: None,
        bits_per_coded_sample: None,
        channels: None,
        channel_layout: None,
        leading_padding: None,
        trailing_padding: None,
        max_frames_per_packet: None,
        packet_data_integrity: false,
    }
}

/// Opening a RIFF WAVE file that starts at byte `p` of `d`: the "RIFF" marker, the RIFF chunk's
/// length and the "WAVE" form, then its chunks up to the data chunk.
pub open spec fn wave_file(d: Seq<u8>, p: int) -> Result<(int, CodecParameters, u16), Error> {
    if p + 4 > d.len() {
        Err(eof())
    } else if d.subrange(p, p + 4) != seq![0x52u8, 0x49, 0x46, 0x46] {
        Err(Error::Unsupported("missing riff stream marker"))
    } else if p + 12 > d.len() {
        Err(eof())
    } else if d.subrange(p + 8, p + 12) != seq![0x57u8, 0x41, 0x56, 0x45] {
        Err(Error::Unsupported("riff form is not wave"))
    } else {
        wave_chunks(d, p + 12, 0, le_at(d, p + 4, 4), empty_params(), 0)
    }
}

/// Adds what a format chunk states to the codec parameters: the sample rate, the packet size,
/// and the sample widths of the PCM or Extensible format.
fn append_format_params(params: &mut CodecParameters, format: &WaveFormatChunk)
    ensures
        *final(params) == (match format.format_data {
            WaveFormatData::Pcm(pcm) => CodecParameters {
                max_frames_per_packet: Some(WAVE_MAX_FRAMES_PER_PACKET),
                sample_rate: Some(format.sample_rate),
                bits_per_coded_sample: Some(pcm.bits_per_sample as u32),
                bits_per_sample: Some(pcm.bits_per_sample as u32),
                ..*old(params)
            },
            WaveFormatData::IeeeFloat => CodecParameters {
                max_frames_per_packet: Some(WAVE_MAX_FRAMES_PER_PACKET),
                sample_rate: Some(format.sample_rate),
                ..*old(params)
            },
            WaveFormatData::Extensible(ext) => CodecParameters {
                max_frames_per_packet: Some(WAVE_MAX_FRAMES_PER_PACKET),
                sample_rate: Some(format.sample_rate),
                bits_per_coded_sample: Some(ext.bits_per_coded_sample as u32),
                bits_per_sample: Some(ext.bits_per_sample as u32),
                ..*old(params)
            },
        }),
{
    params.with_max_frames_per_packet(WAVE_MAX_FRAMES_PER_PACKET);
    params.with_sample_rate(format.sample_rate);
    match format.format_data {
        WaveFormatData::Pcm(pcm) => {
            params.with_bits_per_coded_sample(pcm.bits_per_sample as u32);
            params.with_bits_per_sample(pcm.bits_per_sample as u32);
        },
        WaveFormatData::IeeeFloat => {},
        WaveFormatData::Extensible(ext) => {
            params.with_bits_per_coded_sample(ext.bits_per_coded_sample as u32);
            params.with_bits_per_sample(ext.bits_per_sample as u32);
        },
    }
}

/// Reads the entries of an INFO list of `len` bytes, then skips the rest of the list and its pad
/// byte. The entries' values are read and not kept.
fn read_info_list(source: &mut BufStream, len: u32) -> (r: Result<(), Error>)
    ensures
        final(source).data() == old(source).data(),
        match info_list_end(old(source).data(), old(source).position() as int, 0, len as nat) {
            Ok(e) => r is Ok && final(source).position() == e,
            Err(e) => r == Err::<(), Error>(e),
        },
{
    let ghost d = source.data();
    let ghost p0 = source.position() as int;
    let mut info_list = ChunksReader::<RiffInfoListChunks>::new(len);
    loop
        invariant_except_break
            info_list_end(d, p0, 0, len as nat) == info_list_end(
                d,
                source.position() as int,
                info_list.consumed_spec(),
                len as nat,
            ),
        invariant
            source.data() == d,
            d == old(source).data(),
            p0 == old(source).position(),
            info_list.len_spec() == len,
        ensures
            info_list_end(d, p0, 0, len as nat) == finish_end(
                d,
                source.position() as int,
                info_list.consumed_spec(),
                len as nat,
            ),
        decreases len + 2 - info_list.consumed_spec(),
    {
        let ghost pos = source.position() as int;
        let ghost cons = info_list.consumed_spec();
        proof {
            lemma_next_chunk_progress::<RiffInfoListChunks>(d, pos, cons, len as nat);
        }
        let chunk = info_list.next(source)?;
        match chunk {
            Some(RiffInfoListChunks::Info(info)) => {
                let _entry = info.parse(source)?;
            },
            None => {
                break;
            },
        }
    }
    info_list.finish(source)
}

/// Reads the chunk `chunk`, whose header starts at byte `h` and whose data the reader stands at:
/// whether it is the data chunk. A format chunk sets the codec parameters and the frame length, a
/// fact chunk the number of frames; an INFO list's entries are read and a list of another form
/// is skipped.
fn read_wave_chunk(
    source: &mut BufStream,
    chunk: RiffWaveChunks,
    Ghost(h): Ghost<int>,
    params: &mut CodecParameters,
    frame_len: &mut u16,
) -> (r: Result<bool, Error>)
    requires
        0 <= h,
        h + 8 <= old(source).data().len(),
        old(source).position() == h + 8,
        chunk.describes(
            old(source).data().subrange(h, h + 4),
            le_val(old(source).data().subrange(h + 4, h + 8)) as u32,
        ),
    ensures
        final(source).data() == old(source).data(),
        match wave_chunk_effect(old(source).data(), h, h + 8, *old(params), *old(frame_len)) {
            Ok((is_data, q2, pr, f)) => r == Ok::<bool, Error>(is_data)
                && final(source).position() == q2 && *final(params) == pr
                && *final(frame_len) == f,
            Err(e) => r == Err::<bool, Error>(e),
        },
{
    let ghost d = source.data();
    let ghost q = h + 8;
    match chunk {
        RiffWaveChunks::Format(fmt) => {
            let format = fmt.parse(source)?;
            *frame_len = format.block_align;
            let ghost before = *params;
            append_format_params(params, &format);
            assert(*params == format_params(before, d, q));
            Ok(false)
        },
        RiffWaveChunks::Fact(fct) => {
            let fact = fct.parse(source)?;
            params.with_n_frames(fact.n_frames as u64);
            Ok(false)
        },
        RiffWaveChunks::List(lst) => {
            let list = lst.parse(source)?;
            if list.form[0] == 0x49 && list.form[1] == 0x4e && list.form[2] == 0x46 && list.form[3]
                == 0x4f {
                assert(list.form@ =~= info_form());
                read_info_list(source, list.len)?;
            } else {
                proof {
                    if d.subrange(q, q + 4) == info_form() {
                        assert(list.form@[0] == 0x49 && list.form@[1] == 0x4e && list.form@[2] == 0x46
                            && list.form@[3] == 0x4f);
                    }
                }
                list.skip(source)?;
            }
            Ok(false)
        },
        RiffWaveChunks::Data => Ok(true),
    }
}

/// A reader of a RIFF WAVE file.
pub struct WavReader<'a> {
    reader: BufStream<'a>,
    streams: Vec<Stream>,
    frame_len: u16,
    data_offset: u64,
}

impl<'a> WavReader<'a> {
    /// The stream being read.
    pub closed spec fn source(&self) -> BufStream<'a> {
        self.reader
    }

    /// The streams found.
    pub closed spec fn stream_list(&self) -> Seq<Stream> {
        self.streams@
    }

    /// The length in bytes of one audio frame.
    pub closed spec fn frame_length(&self) -> u16 {
        self.frame_len
    }

    /// Where the audio data starts.
    pub closed spec fn data_start(&self) -> u64 {
        self.data_offset
    }

    /// A reader of `source` that has read nothing yet: no streams are known.
    pub fn open(source: BufStream<'a>) -> (r: Self)
        ensures
            r.source() == source,
            r.stream_list().len() == 0,
            r.frame_length() == 0,
            r.data_start() == 0,
    {
        WavReader { reader: source, streams: Vec::new(), frame_len: 0, data_offset: 0 }
    }

    /// Opens a RIFF WAVE file: checks the "RIFF" marker and the "WAVE" form, then reads the
    /// chunks up to the data chunk. Format and fact chunks give the stream's codec parameters;
    /// INFO lists are read, and their entries not kept; other lists and unknown chunks are
    /// skipped. The reader stands at the start of the audio data.
    pub fn try_new(src: BufStream<'a>) -> (r: Result<WavReader<'a>, Error>)
        ensures
            match wave_file(src.data(), src.position() as int) {
                Ok((off, params, fl)) => r matches Ok(w) && w.source().data() == src.data()
                    && w.source().position() == off && w.data_start() == off
                    && w.frame_length() == fl && w.stream_list().len() == 1
                    && w.stream_list()[0].codec_params == params,
                Err(e) => r matches Err(e2) && e2 == e,
            },
    {
        let mut source = src;
        let ghost d = source.data();
        let ghost p = source.position() as int;
        proof {
            source.lemma_position_bound();
        }
        let marker = source.read_quad_bytes()?;
        if !(marker[0] == 0x52 && marker[1] == 0x49 && marker[2] == 0x46 && marker[3] == 0x46) {
            proof {
                if d.subrange(p, p + 4) == seq![0x52u8, 0x49, 0x46, 0x46] {
                    assert(marker@[0] == 0x52 && marker@[1] == 0x49 && marker@[2] == 0x46
                        && marker@[3] == 0x46);
                }
            }
            return unsupported_error("missing riff stream marker");
        }
        assert(marker@ =~= seq![0x52u8, 0x49, 0x46, 0x46]);
        let riff_len = source.read_u32()?;
        let riff_form = source.read_quad_bytes()?;
        if !(riff_form[0] == 0x57 && riff_form[1] == 0x41 && riff_form[2] == 0x56 && riff_form[3]
            == 0x45) {
            proof {
                if d.subrange(p + 8, p + 12) == seq![0x57u8, 0x41, 0x56, 0x45] {
                    assert(riff_form@[0] == 0x57 && riff_form@[1] == 0x41 && riff_form@[2] == 0x56
                        && riff_form@[3] == 0x45);
                }
            }
            return unsupported_error("riff form is not wave");
        }
        assert(riff_form@ =~= seq![0x57u8, 0x41, 0x56, 0x45]);
        let mut riff_chunks = ChunksReader::<RiffWaveChunks>::new(riff_len);
        let mut codec_params = CodecParameters::new();
        let mut frame_len: u16 = 0;
        loop
            invariant
                source.data() == d,
                d == src.data(),
                p == src.position(),
                wave_file(d, p) == wave_chunks(
                    d,
                    source.position() as int,
                    riff_chunks.consumed_spec(),
                    riff_chunks.len_spec(),
                    codec_params,
                    frame_len,
                ),
            decreases riff_chunks.len_spec() + 2 - riff_chunks.consumed_spec(),
        {
            let ghost pos = source.position() as int;
            let ghost cons = riff_chunks.consumed_spec();
            let ghost len = riff_chunks.len_spec();
            proof {
                lemma_next_chunk_progress::<RiffWaveChunks>(d, pos, cons, len);
            }
            let chunk = riff_chunks.next(&mut source)?;
            match chunk {
                None => {
                    return unsupported_error("missing data chunk");
                },
                Some(c) => {
                    let ghost h = next_chunk::<RiffWaveChunks>(d, pos, cons, len)->Ok_0.0->Some_0;
                    let is_data = read_wave_chunk(&mut source, c, Ghost(h), &mut codec_params, &mut frame_len)?;
                    if is_data {
                        let data_offset = source.pos() as u64;
                        let mut streams = Vec::new();
                        streams.push(Stream::new(codec_params));
                        return Ok(WavReader { reader: source, streams, frame_len, data_offset });
                    }
                },
            }
        }
    }

    /// The streams of the file.
    pub fn streams(&self) -> (r: &[Stream])
        ensures
            r@ == self.stream_list(),
    {
        self.streams.as_slice()
    }

    /// Seeks to audio frame `frame_ts`, which starts `frame_ts` frame lengths after the start of
    /// the audio data, and returns it. Without a stream or a frame length the file cannot be
    /// seeked; a frame past the stream's stated number of frames is out of range. A frame that
    /// starts past the end of the data leaves the reader at the end.
    pub fn seek(&mut self, frame_ts: u64) -> (r: Result<u64, Error>)
        ensures
            final(self).source().data() == old(self).source().data(),
            final(self).stream_list() == old(self).stream_list(),
            final(self).frame_length() == old(self).frame_length(),
            final(self).data_start() == old(self).data_start(),
            if old(self).stream_list().len() == 0 || old(self).frame_length() == 0 {
                r == Err::<u64, Error>(Error::SeekError(SeekErrorKind::Unseekable))
                    && final(self).source() == old(self).source()
            } else if (old(self).stream_list()[0].codec_params.n_frames matches Some(n) && frame_ts
                > n) {
                r == Err::<u64, Error>(Error::SeekError(SeekErrorKind::OutOfRange))
                    && final(self).source() == old(self).source()
            } else {
                let target = old(self).data_start() + frame_ts * old(self).frame_length();
                let end = old(self).source().data().len();
                &&& r == Ok::<u64, Error>(frame_ts)
                &&& final(self).source().position() == if target < end {
                    target
                } else {
                    end as int
                }
            },
    {
        if self.streams.len() == 0 || self.frame_len == 0 {
            return seek_error(SeekErrorKind::Unseekable);
        }
        if let Some(n_frames) = self.streams[0].codec_params.n_frames {
            if frame_ts > n_frames {
                return seek_error(SeekErrorKind::OutOfRange);
            }
        }
        proof {
            self.reader.lemma_position_bound();
        }
        let fl = self.frame_len as u128;
        assert(frame_ts as u128 * fl <= 0xffff_ffff_ffff_ffffu128 * 0xffffu128) by (nonlinear_arith)
            requires
                fl <= 0xffff,
        ;
        let target: u128 = self.data_offset as u128 + frame_ts as u128 * fl;
        let end = FiniteStream::len(&self.reader);
        let pos = if target < end as u128 {
            target as usize
        } else {
            end as usize
        };
        self.reader.seek_to(pos);
        Ok(frame_ts)
    }
}

} // verus!