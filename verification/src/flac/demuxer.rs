//! The native FLAC stream reader: the stream marker, the metadata blocks, and seeking by frame
//! headers.

use vstd::prelude::*;
use crate::codecs::{CodecParameters, CODEC_TYPE_FLAC};
use crate::errors::{Error, IoErrorKind, SeekErrorKind, decode_error, seek_error};
use crate::flac::cuesheet::{cue_fields, cuesheet_header_status, read_cuesheet_block, tracks_status};
use crate::flac::decoder::PacketParser;
use crate::flac::frame::{next_header, packet_ts_of, lemma_next_header_found, is_sync_at};
use crate::flac::metadata::{
    MetadataBlockHeader, MetadataBlockType, StreamInfo, read_application_block,
    read_seek_table_block, read_picture_block, picture_layout,
};
use crate::formats::{Cue, SeekIndex, SeekSearchResult, Stream, bracket_search};
use crate::io::{BufStream, FiniteStream, be_val, eof};
use crate::io::bits_model::bits_val;
use crate::flac::metadata::{be16, block_type_of, seek_entries, stream_info_error, flac_channel_mask};
use crate::formats::SeekPoint;

verus! {

/// The recommended maximum number of bytes to advance a stream to find the stream marker before
/// giving up.
pub const FLAC_PROBE_SEARCH_LIMIT: usize = 512 * 1024;

/// How hard a probe looks for the start of a stream.
#[derive(Copy, Clone, Debug, PartialEq, Eq, Structural)]
pub enum ProbeDepth {
    /// Only the start of the stream is checked.
    Superficial,
    /// The start of the stream is checked, and the stream's headers read.
    Default,
    /// The stream is searched for its start, up to a limit.
    Deep,
}

/// Whether a stream was recognized.
#[derive(Copy, Clone, Debug, PartialEq, Eq, Structural)]
pub enum ProbeResult {
    Unsupported,
    Supported,
}

/// Free Lossless Audio Codec (FLAC) native frame reader.
pub struct FlacReader<'a> {
    reader: BufStream<'a>,
    streams: Vec<Stream>,
    cues: Vec<Cue>,
    index: Option<SeekIndex>,
    first_frame_offset: u64,
}

/// The timestamp and length of the frame whose header starts at byte `q` of `d`, if a valid
/// frame header starts there.
#[verifier::opaque]
pub open spec fn frame_start_at(d: Seq<u8>, q: int) -> Option<(u64, u32)> {
    match next_header(d, q).0 {
        Ok((h, i)) => if i == q {
            Some((packet_ts_of(h), h.block_num_samples as u32))
        } else {
            None
        },
        Err(_) => None,
    }
}

/// The frame header found by searching from byte `q` of `d`: the frame's timestamp and length,
/// where it starts, and where reading its header stops; or the error of reaching the end.
#[verifier::opaque]
pub open spec fn frame_read(d: Seq<u8>, q: int) -> Result<(u64, u32, int, int), Error> {
    match next_header(d, q) {
        (Ok((h, i)), e) => Ok((packet_ts_of(h), h.block_num_samples as u32, i, e)),
        (Err(err), _) => Err(err),
    }
}

/// A frame found by searching from `q` starts at or after `q`, its header ends inside `d` at
/// least two bytes later, and a frame header starts where it does.
pub proof fn lemma_frame_read(d: Seq<u8>, q: int)
    requires
        0 <= q <= d.len(),
    ensures
        frame_read(d, q) matches Ok((t, n, i, e)) ==> q <= i && i + 2 <= e <= d.len()
            && frame_start_at(d, i) == Some((t, n)),
        frame_read(d, q) matches Err(err) ==> err == eof(),
{
    reveal(frame_read);
    reveal(frame_start_at);
    lemma_next_header_found(d, q);
}

/// The search, frame by frame from byte `q` of `d`, for the first frame that contains sample
/// `ts` or starts after it: that frame's timestamp and start, or the error of reaching the end.
pub open spec fn linear_seek(d: Seq<u8>, q: int, ts: u64) -> Result<(u64, int), Error>
    decreases d.len() - q,
{
    match frame_read(d, q) {
        Err(err) => Err(err),
        Ok((pts, n, i, e)) => if ts < pts || ts - pts < n {
            Ok((pts, i))
        } else if e <= q || e > d.len() {
            Err(eof())
        } else {
            linear_seek(d, e, ts)
        },
    }
}

/// The binary search of the bytes `start..end` of `d` for a frame that contains sample `ts`,
/// probing the frame found from the middle: the frame found, or where the search range starts
/// once it is less than twice the maximum frame length; or the error of reaching the end.
pub open spec fn binary_seek(d: Seq<u8>, start: u64, end: u64, ts: u64) -> Result<
    (Option<(u64, int)>, u64),
    Error,
>
    decreases end - start,
{
    if !(end > start && end - start > 2 * 8096) {
        Ok((None, start))
    } else {
        let mid = (start + (end - start) / 2) as u64;
        if mid > d.len() {
            Err(eof())
        } else {
            match frame_read(d, mid as int) {
                Err(err) => Err(err),
                Ok((pts, n, i, _)) => if ts < pts {
                    binary_seek(d, start, mid, ts)
                } else if ts > pts && ts - pts < n {
                    Ok((Some((pts, i)), start))
                } else {
                    binary_seek(d, mid, end, ts)
                },
            }
        }
    }
}

/// `a + b`, or the largest `u64` if that does not fit.
pub open spec fn sat_add(a: u64, b: u64) -> u64 {
    if a + b > u64::MAX {
        u64::MAX
    } else {
        (a + b) as u64
    }
}

/// The byte range that a seek to sample `ts` searches: from the first frame to the end of the
/// stream, narrowed by the seek table's points where there is one.
pub open spec fn seek_range(points: Option<Seq<SeekPoint>>, ts: u64, first: u64, len: u64) -> (
    u64,
    u64,
) {
    match points {
        None => (first, len),
        Some(p) => if p.len() == 0 {
            (first, len)
        } else if ts < p[0].frame_ts {
            (first, sat_add(first, p[0].byte_offset))
        } else if p.last().frame_ts <= ts {
            (sat_add(first, p.last().byte_offset), len)
        } else {
            let l = bracket_search(p, ts, 0, p.len() - 1);
            (sat_add(first, p[l].byte_offset), sat_add(first, p[l + 1].byte_offset))
        },
    }
}

/// The outcome of a seek to sample `ts` in `d`: the binary search over the range, then, unless
/// it found the frame, the frame by frame search from where its range starts.
pub open spec fn seek_outcome(d: Seq<u8>, points: Option<Seq<SeekPoint>>, first: u64, ts: u64) -> Result<
    (u64, int),
    Error,
> {
    let (start, end) = seek_range(points, ts, first, d.len() as u64);
    match binary_seek(d, start, end, ts) {
        Err(err) => Err(err),
        Ok((Some(found), _)) => Ok(found),
        Ok((None, s)) => if s > d.len() {
            Err(eof())
        } else {
            linear_seek(d, s as int, ts)
        },
    }
}

impl<'a> FlacReader<'a> {
    /// The stream being read.
    pub closed spec fn source(&self) -> BufStream<'a> {
        self.reader
    }

    /// The streams found in the metadata.
    pub closed spec fn stream_list(&self) -> Seq<Stream> {
        self.streams@
    }

    /// Whether a seek table was found in the metadata.
    pub closed spec fn has_index(&self) -> bool {
        self.index is Some
    }

    /// The points of the seek table found in the metadata, if one was.
    pub closed spec fn seek_points(&self) -> Option<Seq<SeekPoint>> {
        match self.index {
            Some(i) => Some(i@),
            None => None,
        }
    }

    /// The cues found in the metadata.
    pub closed spec fn cue_list(&self) -> Seq<Cue> {
        self.cues@
    }

    /// Where the first frame starts.
    pub closed spec fn first_frame(&self) -> u64 {
        self.first_frame_offset
    }

    /// Opens a reader on `source`, which is read from its current position.
    pub fn open(source: BufStream<'a>) -> (r: Self)
        ensures
            r.source() == source,
            r.stream_list().len() == 0,
            r.first_frame() == 0,
    {
        FlacReader {
            reader: source,
            streams: Vec::new(),
            cues: Vec::new(),
            index: None,
            first_frame_offset: 0,
        }
    }

    /// The streams found in the metadata.
    pub fn streams(&self) -> (r: &[Stream])
        ensures
            r@ == self.stream_list(),
    {
        self.streams.as_slice()
    }

    /// The cues found in the metadata.
    pub fn cues(&self) -> (r: &[Cue])
        ensures
            r@ == self.cue_list(),
    {
        self.cues.as_slice()
    }

    /// Reads the next frame header from the current position; on success, returns the frame's
    /// timestamp and length, and where the frame starts.
    fn read_frame_header_at(&mut self) -> (r: Result<(u64, u32, usize), Error>)
        ensures
            final(self).reader.data() == old(self).reader.data(),
            final(self).streams == old(self).streams,
            final(self).reader.position() <= final(self).reader.data().len(),
            r matches Ok((ts, n, at)) ==> {
                &&& old(self).reader.position() <= at
                &&& at + 2 <= final(self).reader.position()
                &&& frame_start_at(old(self).reader.data(), at as int) == Some((ts, n))
            },
            r matches Err(e) ==> e == eof(),
            match frame_read(old(self).reader.data(), old(self).reader.position() as int) {
                Ok((t, n, i, e)) => r == Ok::<(u64, u32, usize), Error>((t, n, i as usize))
                    && final(self).reader.position() == e,
                Err(err) => r == Err::<(u64, u32, usize), Error>(err),
            },
    {
        proof {
            self.reader.lemma_position_bound();
            lemma_next_header_found(self.reader.data(), self.reader.position() as int);
            reveal(frame_start_at);
            reveal(frame_read);
        }
        let packet = PacketParser::parse_packet(&mut self.reader)?;
        proof {
            self.reader.lemma_position_bound();
        }
        Ok((packet.packet_ts, packet.n_frames, self.reader.pos() - packet.parsed_len))
    }

    /// Seeks to the frame that contains sample `frame_ts`, and returns that frame's timestamp.
    ///
    /// A binary search over the byte range of the frames, narrowed by the seek table if there is
    /// one, stops at a frame that contains the sample, or when the range is less than twice the
    /// maximum frame length; then frames are read one by one from the start of the range. The
    /// reader is left at the start of the frame found, which is the first frame read that
    /// contains the sample or starts after it.
    pub fn seek(&mut self, frame_ts: u64) -> (r: Result<u64, Error>)
        ensures
            final(self).source().data() == old(self).source().data(),
            final(self).stream_list() == old(self).stream_list(),
            old(self).stream_list().len() == 0 ==> r == Err::<u64, Error>(
                Error::SeekError(SeekErrorKind::Unseekable),
            ),
            old(self).stream_list().len() > 0 ==> (old(self).stream_list()[0].codec_params.n_frames
                matches Some(n) && frame_ts > n ==> r == Err::<u64, Error>(
                Error::SeekError(SeekErrorKind::OutOfRange),
            )),
            r matches Ok(ts) ==> (frame_start_at(
                final(self).source().data(),
                final(self).source().position() as int,
            ) matches Some((t, n)) && t == ts && (frame_ts < t || t <= frame_ts < t + n)),
            r matches Err(e) ==> e == eof() || e == Error::SeekError(SeekErrorKind::Unseekable)
                || e == Error::SeekError(SeekErrorKind::OutOfRange),
            old(self).stream_list().len() > 0 && !(old(self).stream_list()[0].codec_params.n_frames
                matches Some(n) && frame_ts > n) ==> match seek_outcome(
                old(self).source().data(),
                old(self).seek_points(),
                old(self).first_frame(),
                frame_ts,
            ) {
                Ok((t, i)) => r == Ok::<u64, Error>(t) && final(self).source().position() == i,
                Err(e) => r == Err::<u64, Error>(e),
            },
    {
        if self.streams.len() == 0 {
            return seek_error(SeekErrorKind::Unseekable);
        }
        // If the total number of frames in the stream is known, the desired frame timestamp may
        // not exceed it.
        if let Some(n_frames) = self.streams[0].codec_params.n_frames {
            if frame_ts > n_frames {
                return seek_error(SeekErrorKind::OutOfRange);
            }
        }
        let ghost d = self.reader.data();
        let ghost range = seek_range(
            self.seek_points(),
            frame_ts,
            self.first_frame_offset,
            d.len() as u64,
        );
        let ghost outcome = seek_outcome(d, self.seek_points(), self.first_frame_offset, frame_ts);
        // The binary search covers the frames: from the first frame to the end of the stream.
        let mut start_byte_offset = self.first_frame_offset;
        let stream_len = self.reader.len();
        let mut end_byte_offset = stream_len;
        // An index refines the range of the search.
        match &self.index {
            Some(index) => {
                match index.search(frame_ts) {
                    SeekSearchResult::Upper(upper) => {
                        end_byte_offset = self.first_frame_offset.saturating_add(
                            upper.byte_offset,
                        );
                    },
                    SeekSearchResult::Lower(lower) => {
                        start_byte_offset = self.first_frame_offset.saturating_add(
                            lower.byte_offset,
                        );
                    },
                    SeekSearchResult::Range(lower, upper) => {
                        start_byte_offset = self.first_frame_offset.saturating_add(
                            lower.byte_offset,
                        );
                        end_byte_offset = self.first_frame_offset.saturating_add(
                            upper.byte_offset,
                        );
                    },
                    SeekSearchResult::Stream => {},
                }
            },
            None => {},
        }
        assert(start_byte_offset == range.0 && end_byte_offset == range.1);
        // Binary search the range for the frame holding the desired timestamp, until the range
        // is less than twice the maximum frame size.
        while end_byte_offset > start_byte_offset && end_byte_offset - start_byte_offset > 2
            * 8096
            invariant
                outcome == seek_outcome(
                    d,
                    old(self).seek_points(),
                    old(self).first_frame_offset,
                    frame_ts,
                ),
                outcome == match binary_seek(d, start_byte_offset, end_byte_offset, frame_ts) {
                    Err(err) => Err(err),
                    Ok((Some(found), _)) => Ok(found),
                    Ok((None, st)) => if st > d.len() {
                        Err(eof())
                    } else {
                        linear_seek(d, st as int, frame_ts)
                    },
                },
                self.reader.data() == d,
                d == old(self).reader.data(),
                self.streams == old(self).streams,
                stream_len == d.len(),
                stream_len <= usize::MAX,
                self.streams@.len() > 0,
                self.streams@[0].codec_params.n_frames matches Some(n) ==> frame_ts <= n,
            decreases end_byte_offset - start_byte_offset,
        {
            let mid_byte_offset = start_byte_offset + (end_byte_offset - start_byte_offset) / 2;
            proof {
                self.reader.lemma_position_bound();
            }
            if mid_byte_offset > stream_len {
                return Err(Error::IoError(IoErrorKind::UnexpectedEof));
            }
            self.reader.seek_to(mid_byte_offset as usize);
            proof {
                lemma_frame_read(d, mid_byte_offset as int);
            }
            let (packet_ts, n_frames, at) = self.read_frame_header_at()?;
            if frame_ts < packet_ts {
                end_byte_offset = mid_byte_offset;
            } else if frame_ts > packet_ts && frame_ts - packet_ts < n_frames as u64 {
                // Move back to the beginning of the frame.
                self.reader.seek_to(at);
                return Ok(packet_ts);
            } else {
                start_byte_offset = mid_byte_offset;
            }
        }
        // The range is narrowed: search linearly, frame by frame, from its start.
        if start_byte_offset > stream_len {
            return Err(Error::IoError(IoErrorKind::UnexpectedEof));
        }
        self.reader.seek_to(start_byte_offset as usize);
        loop
            invariant
                outcome == seek_outcome(
                    d,
                    old(self).seek_points(),
                    old(self).first_frame_offset,
                    frame_ts,
                ),
                outcome == linear_seek(d, self.reader.position() as int, frame_ts),
                stream_len == d.len(),
                stream_len <= usize::MAX,
                self.reader.data() == d,
                d == old(self).reader.data(),
                self.streams == old(self).streams,
                self.streams@.len() > 0,
                self.streams@[0].codec_params.n_frames matches Some(n) ==> frame_ts <= n,
            decreases d.len() - self.reader.position(),
        {
            proof {
                self.reader.lemma_position_bound();
                lemma_frame_read(d, self.reader.position() as int);
            }
            let (packet_ts, n_frames, at) = self.read_frame_header_at()?;
            if frame_ts < packet_ts || frame_ts - packet_ts < n_frames as u64 {
                // The desired timestamp precedes the frame, or is contained in it: move back to
                // the beginning of the frame.
                self.reader.seek_to(at);
                return Ok(packet_ts);
            }
        }
    }
}

/// Where the metadata blocks that start at byte `p` of `d` end: each block is a 4 byte header,
/// whose first bit marks the last block and whose last 3 bytes are the block's length, then the
/// block. None if the blocks run past the end of `d`.
pub open spec fn metadata_end(d: Seq<u8>, p: int) -> Option<int>
    decreases d.len() - p,
{
    if p < 0 || p + 4 > d.len() {
        None
    } else {
        let next = p + 4 + be_val(d.subrange(p + 1, p + 4));
        if next > d.len() {
            None
        } else if d[p] >= 0x80 {
            Some(next)
        } else {
            metadata_end(d, next)
        }
    }
}

/// Whether the body of a metadata block of type `bt` and length `len`, whose bytes are `b`, reads
/// without error, given whether a stream and a seek table were found before it.
pub open spec fn block_body_ok(
    bt: MetadataBlockType,
    len: u32,
    b: Seq<u8>,
    has_stream: bool,
    has_index: bool,
) -> bool {
    match bt {
        MetadataBlockType::Application => 4 <= len <= b.len(),
        MetadataBlockType::SeekTable => !has_index && seek_entries(b, 0, (len / 18) as nat) is Some,
        MetadataBlockType::Cuesheet => cuesheet_header_status(b, 0) matches Ok((cdda, n))
            && tracks_status(b, 396, cdda, n) is Ok,
        MetadataBlockType::StreamInfo => !has_stream && stream_info_error(b, 0) is None,
        MetadataBlockType::Padding => len <= b.len(),
        MetadataBlockType::Unknown(_) => len <= b.len(),
        MetadataBlockType::Picture => picture_layout(b, 0) is Ok,
        _ => true,
    }
}

/// Whether the metadata blocks that start at byte `p` of `d` all lie in `d` and read without
/// error, given whether a stream and a seek table were found before them.
pub open spec fn metadata_ok(d: Seq<u8>, p: int, has_stream: bool, has_index: bool) -> bool
    decreases d.len() - p,
{
    if p < 0 || p + 4 > d.len() {
        false
    } else {
        let len = be_val(d.subrange(p + 1, p + 4));
        let next = p + 4 + len;
        let bt = block_type_of((d[p] % 0x80) as u8);
        if next > d.len() {
            false
        } else if !block_body_ok(bt, len as u32, d.subrange(p + 4, next), has_stream, has_index) {
            false
        } else if d[p] >= 0x80 {
            true
        } else {
            metadata_ok(
                d,
                next,
                has_stream || bt == MetadataBlockType::StreamInfo,
                has_index || bt == MetadataBlockType::SeekTable,
            )
        }
    }
}

/// Whether the metadata blocks that start at byte `p` of `d` hold a STREAMINFO block.
pub open spec fn metadata_has_stream(d: Seq<u8>, p: int) -> bool
    decreases d.len() - p,
{
    if p < 0 || p + 4 > d.len() {
        false
    } else {
        let next = p + 4 + be_val(d.subrange(p + 1, p + 4));
        if next > d.len() {
            false
        } else if block_type_of((d[p] % 0x80) as u8) == MetadataBlockType::StreamInfo {
            true
        } else if d[p] >= 0x80 {
            false
        } else {
            metadata_has_stream(d, next)
        }
    }
}

/// The points of the first SEEKTABLE block among the metadata blocks that start at byte `p` of
/// `d`, if there is one and it reads.
pub open spec fn metadata_seek_table(d: Seq<u8>, p: int) -> Option<Seq<SeekPoint>>
    decreases d.len() - p,
{
    if p < 0 || p + 4 > d.len() {
        None
    } else {
        let len = be_val(d.subrange(p + 1, p + 4));
        let next = p + 4 + len;
        if next > d.len() {
            None
        } else if block_type_of((d[p] % 0x80) as u8) == MetadataBlockType::SeekTable {
            match seek_entries(d.subrange(p + 4, next), 0, (len / 18) as nat) {
                Some(res) => Some(res.0),
                None => None,
            }
        } else if d[p] >= 0x80 {
            None
        } else {
            metadata_seek_table(d, next)
        }
    }
}

/// Whether `params` are the codec parameters of the STREAMINFO block body at byte `p` of `d`.
pub open spec fn stream_info_params_at(params: CodecParameters, d: Seq<u8>, p: int) -> bool {
    let b = 8 * (p + 10);
    &&& params.codec == CODEC_TYPE_FLAC
    &&& params.sample_rate == Some(bits_val(d, b, 20) as u32)
    &&& params.bits_per_sample == Some((bits_val(d, b + 23, 5) + 1) as u32)
    &&& params.channels matches Some(c) && c.mask() == flac_channel_mask(
        (bits_val(d, b + 20, 3) + 1) as u32,
    )
    &&& params.max_frames_per_packet == Some((be16(d, p + 2) as u16) as u64)
    &&& params.n_frames == if bits_val(d, b + 28, 36) == 0 {
        None
    } else {
        Some(bits_val(d, b + 28, 36) as u64)
    }
}

/// The body of the first STREAMINFO block among the metadata blocks that start at byte `p` of
/// `d`, if there is one.
pub open spec fn metadata_stream_info(d: Seq<u8>, p: int) -> Option<Seq<u8>>
    decreases d.len() - p,
{
    if p < 0 || p + 4 > d.len() {
        None
    } else {
        let next = p + 4 + be_val(d.subrange(p + 1, p + 4));
        if next > d.len() {
            None
        } else if block_type_of((d[p] % 0x80) as u8) == MetadataBlockType::StreamInfo {
            Some(d.subrange(p + 4, next))
        } else if d[p] >= 0x80 {
            None
        } else {
            metadata_stream_info(d, next)
        }
    }
}

/// Whether `cues` are the cues of the CUESHEET blocks among the metadata blocks that start at
/// byte `p` of `d`, in order: each block gives one cue per track, with the fields of its track.
pub open spec fn metadata_cues(cues: Seq<Cue>, d: Seq<u8>, p: int) -> bool
    decreases d.len() - p,
{
    if p < 0 || p + 4 > d.len() {
        cues.len() == 0
    } else {
        let next = p + 4 + be_val(d.subrange(p + 1, p + 4));
        if next > d.len() {
            cues.len() == 0
        } else {
            let b = d.subrange(p + 4, next);
            let n: nat = if block_type_of((d[p] % 0x80) as u8) == MetadataBlockType::Cuesheet {
                match cuesheet_header_status(b, 0) {
                    Ok((_, n)) => n,
                    Err(_) => 0,
                }
            } else {
                0
            };
            let fields_ok = block_type_of((d[p] % 0x80) as u8) == MetadataBlockType::Cuesheet
                ==> (cuesheet_header_status(b, 0) matches Ok((cdda, n2)) && forall|j: int|
                0 <= j < n2 ==> j < cues.len() && cue_fields(
                    #[trigger] cues[j],
                    b,
                    tracks_status(b, 396, cdda, j as nat)->Ok_0,
                ));
            &&& fields_ok
            &&& cues.len() >= n
            &&& if d[p] >= 0x80 {
                cues.len() == n
            } else {
                metadata_cues(cues.skip(n as int), d, next)
            }
        }
    }
}

/// The cues `new` that the block at byte `p` of `d` gives, followed by cues `ys` of the blocks
/// after it, are the cues of the blocks from `p` on.
proof fn lemma_metadata_cues_step(d: Seq<u8>, p: int, new: Seq<Cue>, ys: Seq<Cue>)
    requires
        0 <= p,
        p + 4 <= d.len(),
        p + 4 + be_val(d.subrange(p + 1, p + 4)) <= d.len(),
        ({
            let b = d.subrange(p + 4, p + 4 + be_val(d.subrange(p + 1, p + 4)));
            if block_type_of((d[p] % 0x80) as u8) == MetadataBlockType::Cuesheet {
                cuesheet_header_status(b, 0) matches Ok((cdda, n)) && new.len() == n && forall|j: int|
                    0 <= j < n ==> cue_fields(
                        #[trigger] new[j],
                        b,
                        tracks_status(b, 396, cdda, j as nat)->Ok_0,
                    )
            } else {
                new.len() == 0
            }
        }),
        d[p] >= 0x80 ==> ys.len() == 0,
        d[p] < 0x80 ==> metadata_cues(ys, d, p + 4 + be_val(d.subrange(p + 1, p + 4))),
    ensures
        metadata_cues(new + ys, d, p),
{
    let all = new + ys;
    assert(all.skip(new.len() as int) =~= ys);
    assert forall|j: int| 0 <= j < new.len() implies all[j] == new[j] by {}
}

/// Reading the block at byte `p` of `d`, whose body is `b`, took the cues from `before` to
/// `after`: the cues read from `p0` on, followed by those of the blocks after this one, are the
/// cues of the blocks from `p0` on; after the last block, the cues read are all of them.
proof fn lemma_cues_advance(
    d: Seq<u8>,
    p: int,
    p0: int,
    b: Seq<u8>,
    before: Seq<Cue>,
    after: Seq<Cue>,
    ol: int,
)
    requires
        0 <= ol <= before.len(),
        0 <= p,
        p + 4 <= d.len(),
        p + 4 + be_val(d.subrange(p + 1, p + 4)) <= d.len(),
        b == d.subrange(p + 4, p + 4 + be_val(d.subrange(p + 1, p + 4))),
        after.len() >= before.len(),
        after.take(before.len() as int) == before,
        block_type_of((d[p] % 0x80) as u8) == MetadataBlockType::Cuesheet ==> (
        cuesheet_header_status(b, 0) matches Ok((cdda, n)) && after.len() == before.len() + n
            && forall|j: int|
            0 <= j < n ==> cue_fields(
                #[trigger] after[before.len() + j],
                b,
                tracks_status(b, 0int + 396, cdda, j as nat)->Ok_0,
            )),
        block_type_of((d[p] % 0x80) as u8) != MetadataBlockType::Cuesheet ==> after == before,
        forall|ys: Seq<Cue>|
            metadata_cues(ys, d, p) ==> #[trigger] metadata_cues(before.skip(ol) + ys, d, p0),
    ensures
        d[p] >= 0x80 ==> metadata_cues(after.skip(ol), d, p0),
        d[p] < 0x80 ==> forall|ys: Seq<Cue>|
            metadata_cues(ys, d, p + 4 + be_val(d.subrange(p + 1, p + 4))) ==> #[trigger] metadata_cues(
                after.skip(ol) + ys,
                d,
                p0,
            ),
{
    let new = after.skip(before.len() as int);
    assert(after =~= before + new);
    assert(after.skip(ol) =~= before.skip(ol) + new);
    if block_type_of((d[p] % 0x80) as u8) == MetadataBlockType::Cuesheet {
        let (cdda, n) = cuesheet_header_status(b, 0)->Ok_0;
        assert forall|j: int| 0 <= j < n implies cue_fields(
            #[trigger] new[j],
            b,
            tracks_status(b, 396, cdda, j as nat)->Ok_0,
        ) by {
            assert(new[j] == after[before.len() + j]);
        }
    }
    if d[p] >= 0x80 {
        lemma_metadata_cues_step(d, p, new, Seq::<Cue>::empty());
        assert(new + Seq::<Cue>::empty() =~= new);
        assert(metadata_cues(before.skip(ol) + new, d, p0));
    } else {
        assert forall|ys: Seq<Cue>|
            metadata_cues(ys, d, p + 4 + be_val(d.subrange(p + 1, p + 4))) implies #[trigger] metadata_cues(
            after.skip(ol) + ys,
            d,
            p0,
        ) by {
            lemma_metadata_cues_step(d, p, new, ys);
            assert(metadata_cues(before.skip(ol) + (new + ys), d, p0));
            assert(before.skip(ol) + (new + ys) =~= after.skip(ol) + ys);
        }
    }
}

/// What reading the body `b` of a metadata block of type `bt` and length `len` gives, given
/// whether a stream and a seek table were found before it: success, or the error.
pub open spec fn block_body_status(
    bt: MetadataBlockType,
    len: u32,
    b: Seq<u8>,
    has_stream: bool,
    has_index: bool,
) -> Result<(), Error> {
    match bt {
        MetadataBlockType::Application => if len < 4 || len > b.len() {
            Err(eof())
        } else {
            Ok(())
        },
        MetadataBlockType::SeekTable => if has_index {
            Err(Error::DecodeError("Found more than one SeekTable block."))
        } else if seek_entries(b, 0, (len / 18) as nat) is Some {
            Ok(())
        } else {
            Err(eof())
        },
        MetadataBlockType::Cuesheet => match cuesheet_header_status(b, 0) {
            Err(e) => Err(e),
            Ok((cdda, n)) => match tracks_status(b, 396, cdda, n) {
                Ok(_) => Ok(()),
                Err(e) => Err(e),
            },
        },
        MetadataBlockType::StreamInfo => if has_stream {
            Err(Error::DecodeError("Found more than one StreamInfo block."))
        } else {
            match stream_info_error(b, 0) {
                Some(e) => Err(e),
                None => Ok(()),
            }
        },
        MetadataBlockType::Padding => if len <= b.len() {
            Ok(())
        } else {
            Err(eof())
        },
        MetadataBlockType::Unknown(_) => if len <= b.len() {
            Ok(())
        } else {
            Err(eof())
        },
        MetadataBlockType::Picture => match picture_layout(b, 0) {
            Ok(_) => Ok(()),
            Err(e) => Err(e),
        },
        _ => Ok(()),
    }
}

/// Reading the metadata blocks that start at byte `p` of `d`, up to and including the one marked
/// last, given whether a stream and a seek table were found before them: where the last block
/// ends, or the first error. Each block's body is read from its own bytes: a read past its end,
/// where the block lies whole in `d`, is an error other than the end of the stream.
#[verifier::opaque]
pub open spec fn metadata_status(d: Seq<u8>, p: int, has_stream: bool, has_index: bool) -> Result<
    int,
    Error,
>
    decreases d.len() - p,
{
    if p < 0 || p + 4 > d.len() {
        Err(eof())
    } else {
        let len = be_val(d.subrange(p + 1, p + 4));
        let next = p + 4 + len;
        let bt = block_type_of((d[p] % 0x80) as u8);
        let b = d.subrange(p + 4, if next <= d.len() { next } else { d.len() as int });
        match block_body_status(bt, len as u32, b, has_stream, has_index) {
            Err(e) => Err(if next <= d.len() && e == eof() {
                Error::IoError(IoErrorKind::Other)
            } else {
                e
            }),
            Ok(()) => if next > d.len() {
                Err(eof())
            } else if d[p] >= 0x80 {
                Ok(next)
            } else {
                metadata_status(
                    d,
                    next,
                    has_stream || bt == MetadataBlockType::StreamInfo,
                    has_index || bt == MetadataBlockType::SeekTable,
                )
            },
        }
    }
}

/// One step of reading the metadata blocks: the block at `p`, then the ones after it.
proof fn lemma_metadata_status_step(d: Seq<u8>, p: int, hs: bool, hi: bool)
    ensures
        metadata_status(d, p, hs, hi) == (if p < 0 || p + 4 > d.len() {
            Err(eof())
        } else {
            let len = be_val(d.subrange(p + 1, p + 4));
            let next = p + 4 + len;
            let bt = block_type_of((d[p] % 0x80) as u8);
            let b = d.subrange(p + 4, if next <= d.len() { next } else { d.len() as int });
            match block_body_status(bt, len as u32, b, hs, hi) {
                Err(e) => Err(if next <= d.len() && e == eof() {
                    Error::IoError(IoErrorKind::Other)
                } else {
                    e
                }),
                Ok(()) => if next > d.len() {
                    Err(eof())
                } else if d[p] >= 0x80 {
                    Ok(next)
                } else {
                    metadata_status(
                        d,
                        next,
                        hs || bt == MetadataBlockType::StreamInfo,
                        hi || bt == MetadataBlockType::SeekTable,
                    )
                },
            }
        }),
{
    reveal(metadata_status);
}

/// Reads a STREAMINFO block and adds its stream, unless there is one already.
fn read_stream_info_block(block_stream: &mut BufStream, streams: &mut Vec<Stream>) -> (r: Result<
    (),
    Error,
>)
    ensures
        final(block_stream).data() == old(block_stream).data(),
        old(streams)@.len() > 0 ==> r == Err::<(), Error>(
            Error::DecodeError("Found more than one StreamInfo block."),
        ) && final(streams)@ == old(streams)@,
        old(streams)@.len() == 0 ==> ({
            let d = old(block_stream).data();
            let p = old(block_stream).position() as int;
            let b = 8 * (p + 10);
            &&& r is Err <==> stream_info_error(d, p) is Some
            &&& r matches Err(e) ==> stream_info_error(d, p) == Some(e) && final(streams)@ == old(
                streams,
            )@
            &&& r is Ok ==> {
                let params = final(streams)@[0].codec_params;
                &&& final(streams)@.len() == 1
                &&& stream_info_params_at(params, d, p)
                &&& params.codec == CODEC_TYPE_FLAC
                &&& params.sample_rate == Some(bits_val(d, b, 20) as u32)
                &&& params.bits_per_sample == Some((bits_val(d, b + 23, 5) + 1) as u32)
                &&& params.channels matches Some(c) && c.mask() == flac_channel_mask(
                    (bits_val(d, b + 20, 3) + 1) as u32,
                )
                &&& params.max_frames_per_packet == Some((be16(d, p + 2) as u16) as u64)
                &&& params.n_frames == if bits_val(d, b + 28, 36) == 0 {
                    None
                } else {
                    Some(bits_val(d, b + 28, 36) as u64)
                }
            }
        }),
{
    // Only one StreamInfo block, and therefore only one stream, is allowed.
    if streams.len() == 0 {
        let info = StreamInfo::read(block_stream)?;
        let mut codec_params = CodecParameters::new();
        codec_params.for_codec(CODEC_TYPE_FLAC);
        codec_params.with_sample_rate(info.sample_rate);
        codec_params.with_bits_per_sample(info.bits_per_sample);
        codec_params.with_max_frames_per_packet(info.block_sample_len.1 as u64);
        codec_params.with_channels(info.channels);
        // The total number of samples per channel may or may not be stated.
        if let Some(n_frames) = info.n_samples {
            codec_params.with_n_frames(n_frames);
        }
        streams.push(Stream::new(codec_params));
        Ok(())
    } else {
        decode_error("Found more than one StreamInfo block.")
    }
}

impl<'a> FlacReader<'a> {
    /// Reads the body of a metadata block from `block`, which holds the block's bytes.
    ///
    /// Vorbis comment blocks are skipped. Picture blocks are read, and a malformed one is an
    /// error; the picture read is not kept.
    fn read_block_body(&mut self, header: &MetadataBlockHeader, block: &mut BufStream) -> (r: Result<
        (),
        Error,
    >)
        ensures
            final(self).reader == old(self).reader,
            final(self).first_frame_offset == old(self).first_frame_offset,
            old(self).streams@.len() <= 1 ==> final(self).streams@.len() <= 1,
            old(self).streams@.len() == 1 ==> final(self).streams@ == old(self).streams@,
            final(block).data() == old(block).data(),
            old(block).position() == 0 ==> match block_body_status(
                header.block_type,
                header.block_len,
                old(block).data(),
                old(self).streams@.len() > 0,
                old(self).index is Some,
            ) {
                Ok(()) => r is Ok,
                Err(e) => r == Err::<(), Error>(e),
            },
            header.block_type != MetadataBlockType::StreamInfo ==> final(self).streams
                == old(self).streams,
            header.block_type != MetadataBlockType::Cuesheet ==> final(self).cues == old(self).cues,
            header.block_type != MetadataBlockType::SeekTable ==> final(self).index == old(
                self,
            ).index,
            ({
                let d = old(block).data();
                let p = old(block).position() as int;
                let len = header.block_len;
                match header.block_type {
                    MetadataBlockType::Application => if len < 4 {
                        r == Err::<(), Error>(eof())
                    } else {
                        (r is Ok <==> p + len <= d.len()) && (r matches Err(e) ==> e == eof())
                    },
                    MetadataBlockType::SeekTable => match old(self).index {
                        Some(_) => r == Err::<(), Error>(
                            Error::DecodeError("Found more than one SeekTable block."),
                        ) && final(self).index == old(self).index,
                        None => {
                            let res = seek_entries(d, p, (len / 18) as nat);
                            &&& r is Ok <==> res is Some
                            &&& r matches Err(e) ==> e == eof() && final(self).index is None
                            &&& r is Ok ==> (final(self).index matches Some(idx) && idx@
                                == res.unwrap().0)
                        },
                    },
                    MetadataBlockType::Cuesheet => {
                        &&& final(self).cues@.len() >= old(self).cues@.len()
                        &&& final(self).cues@.take(old(self).cues@.len() as int) == old(self).cues@
                        &&& match cuesheet_header_status(d, p) {
                            Err(e) => r == Err::<(), Error>(e) && final(self).cues@ == old(
                                self,
                            ).cues@,
                            Ok((is_cdda, n)) => match tracks_status(d, p + 396, is_cdda, n) {
                                Ok(_) => r is Ok && final(self).cues@.len() == old(
                                    self,
                                ).cues@.len() + n && forall|j: int|
                                    0 <= j < n ==> cue_fields(
                                        #[trigger] final(self).cues@[old(self).cues@.len() + j],
                                        d,
                                        tracks_status(d, p + 396, is_cdda, j as nat)->Ok_0,
                                    ),
                                Err(e) => r == Err::<(), Error>(e),
                            },
                        }
                    },
                    MetadataBlockType::StreamInfo => if old(self).streams@.len() > 0 {
                        r == Err::<(), Error>(
                            Error::DecodeError("Found more than one StreamInfo block."),
                        )
                    } else {
                        &&& r is Err <==> stream_info_error(d, p) is Some
                        &&& r matches Err(e) ==> stream_info_error(d, p) == Some(e)
                        &&& r is Ok ==> {
                            let params = final(self).streams@[0].codec_params;
                            let b = 8 * (p + 10);
                            &&& final(self).streams@.len() == 1
                            &&& stream_info_params_at(params, d, p)
                            &&& params.codec == CODEC_TYPE_FLAC
                            &&& params.sample_rate == Some(bits_val(d, b, 20) as u32)
                            &&& params.bits_per_sample == Some((bits_val(d, b + 23, 5) + 1) as u32)
                            &&& params.max_frames_per_packet == Some((be16(d, p + 2) as u16) as u64)
                        }
                    },
                    MetadataBlockType::Padding => (r is Ok <==> p + len <= d.len()) && (
                    r matches Err(e) ==> e == eof()),
                    MetadataBlockType::Unknown(_) => (r is Ok <==> p + len <= d.len()) && (
                    r matches Err(e) ==> e == eof()),
                    MetadataBlockType::Picture => match picture_layout(d, p) {
                        Ok(_) => r is Ok,
                        Err(e) => r == Err::<(), Error>(e),
                    },
                    _ => r == Ok::<(), Error>(()),
                }
            }),
    {
        match header.block_type {
            MetadataBlockType::Application => {
                if header.block_len < 4 {
                    return Err(Error::IoError(IoErrorKind::UnexpectedEof));
                }
                read_application_block(block, header.block_len)?;
                Ok(())
            },
            // SeekTable blocks are parsed into a SeekIndex.
            MetadataBlockType::SeekTable => {
                // More than one SeekTable violates the specification.
                if self.index.is_none() {
                    let mut index = SeekIndex::new();
                    read_seek_table_block(block, header.block_len, &mut index)?;
                    self.index = Some(index);
                    Ok(())
                } else {
                    decode_error("Found more than one SeekTable block.")
                }
            },
            MetadataBlockType::VorbisComment => Ok(()),
            // Cuesheet blocks are parsed into Cues.
            MetadataBlockType::Cuesheet => read_cuesheet_block(block, &mut self.cues),
            MetadataBlockType::Picture => {
                let _picture = read_picture_block(block)?;
                Ok(())
            },
            // StreamInfo blocks are parsed into Streams.
            MetadataBlockType::StreamInfo => read_stream_info_block(block, &mut self.streams),
            // Padding blocks are skipped, and so are blocks of unknown types, which may be part
            // of a future version of FLAC.
            MetadataBlockType::Padding => block.ignore_bytes(header.block_len as u64),
            MetadataBlockType::Unknown(_) => block.ignore_bytes(header.block_len as u64),
        }
    }

    /// Reads all the metadata blocks, up to and including the one marked last.
    ///
    /// Each block is read from its own bytes: a read past the end of a block is an error. What
    /// a block's reader leaves unread is skipped.
    #[verifier::rlimit(100)]
    #[verifier::spinoff_prover]
    pub fn read_all_metadata_blocks(&mut self) -> (r: Result<(), Error>)
        ensures
            final(self).source().data() == old(self).source().data(),
            final(self).first_frame() == old(self).first_frame(),
            old(self).stream_list().len() <= 1 ==> final(self).stream_list().len() <= 1,
            old(self).stream_list().len() == 1 ==> final(self).stream_list()
                == old(self).stream_list(),
            ({
                let d = old(self).source().data();
                let end = metadata_end(d, old(self).source().position() as int);
                let p = old(self).source().position() as int;
                &&& r is Ok ==> end == Some(final(self).source().position() as int)
                &&& end is None ==> r is Err
                &&& r matches Err(e) ==> end is None || e != eof()
                &&& metadata_ok(d, p, old(self).stream_list().len() > 0, old(self).has_index())
                    ==> r is Ok
                &&& r is Ok ==> (final(self).stream_list().len() > 0 <==> old(
                    self,
                ).stream_list().len() > 0 || metadata_has_stream(d, p))
                &&& r is Ok && old(self).has_index() ==> final(self).seek_points() == old(
                    self,
                ).seek_points()
                &&& r is Ok && !old(self).has_index() ==> final(self).seek_points()
                    == metadata_seek_table(d, p)
                &&& r is Ok ==> final(self).cue_list().len() >= old(self).cue_list().len()
                    && final(self).cue_list().take(old(self).cue_list().len() as int) == old(
                    self,
                ).cue_list() && metadata_cues(
                    final(self).cue_list().skip(old(self).cue_list().len() as int),
                    d,
                    p,
                )
                &&& r is Ok && old(self).stream_list().len() == 0 ==> (
                metadata_stream_info(d, p) matches Some(b) ==> stream_info_params_at(
                    final(self).stream_list()[0].codec_params,
                    b,
                    0,
                ))
                &&& match metadata_status(
                    d,
                    p,
                    old(self).stream_list().len() > 0,
                    old(self).has_index(),
                ) {
                    Ok(e) => r is Ok && final(self).source().position() == e,
                    Err(e) => r == Err::<(), Error>(e),
                }
            }),
    {
        let ghost d = self.reader.data();
        let ghost p0 = self.reader.position() as int;
        loop
            invariant
                self.reader.data() == d,
                d == old(self).reader.data(),
                self.first_frame_offset == old(self).first_frame_offset,
                old(self).streams@.len() <= 1 ==> self.streams@.len() <= 1,
                old(self).streams@.len() == 1 ==> self.streams@ == old(self).streams@,
                metadata_end(d, old(self).reader.position() as int) == metadata_end(
                    d,
                    self.reader.position() as int,
                ),
                p0 == old(self).reader.position(),
                metadata_ok(d, p0, old(self).streams@.len() > 0, old(self).index is Some)
                    ==> metadata_ok(
                    d,
                    self.reader.position() as int,
                    self.streams@.len() > 0,
                    self.index is Some,
                ),
                (old(self).streams@.len() > 0 || metadata_has_stream(d, p0)) == (
                self.streams@.len() > 0 || metadata_has_stream(d, self.reader.position() as int)),
                old(self).index is Some ==> self.index == old(self).index,
                old(self).index is None && self.index is None ==> metadata_seek_table(d, p0)
                    == metadata_seek_table(d, self.reader.position() as int),
                old(self).index is None && self.index is Some ==> self.seek_points()
                    == metadata_seek_table(d, p0),
                old(self).streams@.len() == 0 && self.streams@.len() == 0 ==> metadata_stream_info(
                    d,
                    p0,
                ) == metadata_stream_info(d, self.reader.position() as int),
                old(self).streams@.len() == 0 && self.streams@.len() > 0 ==> (metadata_stream_info(
                    d,
                    p0,
                ) matches Some(b) && stream_info_params_at(self.streams@[0].codec_params, b, 0)),
                metadata_status(d, p0, old(self).streams@.len() > 0, old(self).index is Some)
                    == metadata_status(
                    d,
                    self.reader.position() as int,
                    self.streams@.len() > 0,
                    self.index is Some,
                ),
                self.cues@.len() >= old(self).cues@.len(),
                self.cues@.take(old(self).cues@.len() as int) == old(self).cues@,
                forall|ys: Seq<Cue>|
                    metadata_cues(ys, d, self.reader.position() as int) ==> #[trigger] metadata_cues(
                        self.cues@.skip(old(self).cues@.len() as int) + ys,
                        d,
                        p0,
                    ),
            decreases d.len() - self.reader.position(),
        {
            let ghost p = self.reader.position() as int;
            let ghost cues_before = self.cues@;
            proof {
                self.reader.lemma_position_bound();
                lemma_metadata_status_step(d, p, self.streams@.len() > 0, self.index is Some);
            }
            let header = MetadataBlockHeader::read(&mut self.reader)?;
            let len = header.block_len as usize;
            let rest = self.reader.rest();
            let avail = if len <= rest.len() {
                len
            } else {
                rest.len()
            };
            let (scope, _) = rest.split_at(avail);
            let mut block = BufStream::new(scope);
            assert(avail == len ==> scope@ == d.subrange(p + 4, p + 4 + len));
            assert(scope@ == d.subrange(
                p + 4,
                if p + 4 + header.block_len <= d.len() {
                    p + 4 + header.block_len
                } else {
                    d.len() as int
                },
            ));
            match self.read_block_body(&header, &mut block) {
                Ok(()) => {},
                Err(e) => {
                    // A read past the end of a block that lies whole in the stream is out of the
                    // block's bounds.
                    if avail == len {
                        if let Error::IoError(IoErrorKind::UnexpectedEof) = e {
                            return Err(Error::IoError(IoErrorKind::Other));
                        }
                    }
                    return Err(e);
                },
            }
            // Skip what the block's reader left unread.
            self.reader.ignore_bytes(header.block_len as u64)?;
            proof {
                assert(self.cues@.take(cues_before.len() as int) =~= cues_before);
                lemma_cues_advance(
                    d,
                    p,
                    p0,
                    scope@,
                    cues_before,
                    self.cues@,
                    old(self).cues@.len() as int,
                );
            }
            // Stop after the last block.
            if header.is_last {
                return Ok(());
            }
        }
    }
}

/// Whether the stream marker "fLaC" starts at byte `i` of `d`.
pub open spec fn flac_marker_at(d: Seq<u8>, i: int) -> bool {
    &&& 0 <= i
    &&& i + 4 <= d.len()
    &&& d[i] == 0x66 && d[i + 1] == 0x4c && d[i + 2] == 0x61 && d[i + 3] == 0x43
}

/// The search for the stream marker at offsets `k` up to `max_k` from byte `p` of `d`: where the
/// marker starts, None if the search gives up, or the error of reading past the end of `d`.
pub open spec fn marker_search(d: Seq<u8>, p: int, k: nat, max_k: nat) -> Result<Option<int>, Error>
    decreases max_k - k,
{
    if p + k + 4 > d.len() {
        Err(eof())
    } else if flac_marker_at(d, p + k) {
        Ok(Some(p + k))
    } else if k >= max_k {
        Ok(None)
    } else {
        marker_search(d, p, k + 1, max_k)
    }
}

/// How far from its start a probe of the given depth looks for the stream marker.
pub open spec fn probe_reach(depth: ProbeDepth) -> nat {
    if depth == ProbeDepth::Deep {
        (FLAC_PROBE_SEARCH_LIMIT - 3) as nat
    } else {
        0
    }
}

impl<'a> FlacReader<'a> {
    /// Looks for the FLAC stream marker and reads the metadata blocks that follow it.
    ///
    /// The marker must be at the current position, or, for a deep probe, start within the search
    /// limit after it. The metadata must describe a stream.
    pub fn probe(&mut self, depth: ProbeDepth) -> (r: Result<ProbeResult, Error>)
        ensures
            final(self).source().data() == old(self).source().data(),
            ({
                let d = old(self).source().data();
                match marker_search(d, old(self).source().position() as int, 0, probe_reach(depth)) {
                    Err(e) => r == Err::<ProbeResult, Error>(e),
                    Ok(None) => r == Ok::<ProbeResult, Error>(ProbeResult::Unsupported),
                    Ok(Some(m)) => {
                        &&& r is Ok ==> {
                            &&& r == Ok::<ProbeResult, Error>(ProbeResult::Supported)
                            &&& metadata_end(d, m + 4) == Some(final(self).first_frame() as int)
                            &&& final(self).stream_list().len() >= 1
                            &&& old(self).stream_list().len() <= 1
                                ==> final(self).stream_list().len() == 1
                            &&& old(self).has_index() ==> final(self).seek_points() == old(
                                self,
                            ).seek_points()
                            &&& !old(self).has_index() ==> final(self).seek_points()
                                == metadata_seek_table(d, m + 4)
                            &&& final(self).cue_list().take(old(self).cue_list().len() as int)
                                == old(self).cue_list()
                            &&& metadata_cues(
                                final(self).cue_list().skip(old(self).cue_list().len() as int),
                                d,
                                m + 4,
                            )
                            &&& old(self).stream_list().len() == 0 ==> (metadata_stream_info(
                                d,
                                m + 4,
                            ) matches Some(b) ==> stream_info_params_at(
                                final(self).stream_list()[0].codec_params,
                                b,
                                0,
                            ))
                        }
                        &&& match metadata_status(
                            d,
                            m + 4,
                            old(self).stream_list().len() > 0,
                            old(self).has_index(),
                        ) {
                            Err(e) => r == Err::<ProbeResult, Error>(e),
                            Ok(_) => if old(self).stream_list().len() > 0 || metadata_has_stream(
                                d,
                                m + 4,
                            ) {
                                r == Ok::<ProbeResult, Error>(ProbeResult::Supported)
                            } else {
                                r == Err::<ProbeResult, Error>(
                                    Error::DecodeError("No StreamInfo block."),
                                )
                            },
                        }
                        &&& metadata_end(d, m + 4) is None ==> r is Err
                        &&& metadata_ok(
                            d,
                            m + 4,
                            old(self).stream_list().len() > 0,
                            old(self).has_index(),
                        ) && (old(self).stream_list().len() > 0 || metadata_has_stream(d, m + 4))
                            ==> r == Ok::<ProbeResult, Error>(ProbeResult::Supported)
                    },
                }
            }),
    {
        let ghost d = self.reader.data();
        let ghost p = self.reader.position() as int;
        let ghost max_k = probe_reach(depth);
        // Read the first 4 bytes. Ideally, this is the stream marker. If not, and the probe is
        // deep, it is a window that moves byte by byte over the stream in search of the marker.
        let b0 = self.reader.read_u8()?;
        let b1 = self.reader.read_u8()?;
        let b2 = self.reader.read_u8()?;
        let b3 = self.reader.read_u8()?;
        let mut marker: [u8; 4] = [b0, b1, b2, b3];
        // Count the bytes read so that a limit may be applied.
        let mut probed_bytes: usize = 4;
        loop
            invariant
                self.reader.data() == d,
                d == old(self).reader.data(),
                p == old(self).reader.position(),
                max_k == probe_reach(depth),
                self.streams == old(self).streams,
                self.index == old(self).index,
                self.cues == old(self).cues,
                4 <= probed_bytes <= FLAC_PROBE_SEARCH_LIMIT + 1,
                probed_bytes - 4 <= max_k || max_k == 0 && probed_bytes == 4,
                self.reader.position() == p + probed_bytes,
                marker@ == d.subrange(p + probed_bytes - 4, p + probed_bytes),
                marker_search(d, p, 0, max_k) == marker_search(
                    d,
                    p,
                    (probed_bytes - 4) as nat,
                    max_k,
                ),
            decreases FLAC_PROBE_SEARCH_LIMIT + 1 - probed_bytes,
        {
            proof {
                self.reader.lemma_position_bound();
            }
            if marker[0] == 0x66 && marker[1] == 0x4c && marker[2] == 0x61 && marker[3] == 0x43 {
                // Found the marker. The first metadata block should be a StreamInfo block, but
                // a stream fed from its middle has none: read all the blocks, and handle the
                // StreamInfo block as it comes.
                self.read_all_metadata_blocks()?;
                self.first_frame_offset = self.reader.pos() as u64;
                // There must be at least one StreamInfo block.
                if self.streams.len() == 0 {
                    return decode_error("No StreamInfo block.");
                }
                return Ok(ProbeResult::Supported);
            } else if depth == ProbeDepth::Deep {
                // Do not search past the designated search limit.
                if probed_bytes <= FLAC_PROBE_SEARCH_LIMIT {
                    let ghost k = (probed_bytes - 4) as nat;
                    assert(!flac_marker_at(d, p + k));
                    assert(k < max_k);
                    marker[0] = marker[1];
                    marker[1] = marker[2];
                    marker[2] = marker[3];
                    marker[3] = match self.reader.read_u8() {
                        Ok(b) => b,
                        Err(e) => {
                            assert(marker_search(d, p, k, max_k) == marker_search(d, p, k + 1, max_k));
                            return Err(e);
                        },
                    };
                    probed_bytes = probed_bytes + 1;
                    assert(marker@ =~= d.subrange(p + probed_bytes - 4, p + probed_bytes));
                } else {
                    // The search limit was reached: the stream is unsupported.
                    return Ok(ProbeResult::Unsupported);
                }
            } else {
                return Ok(ProbeResult::Unsupported);
            }
        }
    }
}

} // verus!
