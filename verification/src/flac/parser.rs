//! Recovery of whole FLAC frames from a byte stream, without relying on the frames' lengths.
//!
//! Frames:    [                           F0                          |   ..   ]
//!
//! Fragments: [  f0   |  f1   |      f2     |    f3    |    f4   | f5 |   ..   ]
//!
//! Blocks:    [           b0            |     b1     |     b2     |     b3     ]
//!
//! Frames are complete FLAC frames. Frames are composed of an integer number of fragments.
//! Fragments are variable size, but always start with the frame header preamble. Blocks are read
//! from the stream, generally of the average frame size rounded up to the next multiple of 4kB.
//!
//! Once buffered, a block is scanned for fragments: positions where the frame header preamble is
//! followed by a valid FLAC frame header. Fragments are then combined until a valid FLAC frame is
//! found: one whose last two bytes are the CRC-16 of the rest. A set of rules and heuristics
//! limits the recombination to handle corrupt frames.

use std::collections::VecDeque;
use vstd::prelude::*;
use crate::audio::Channels;
use crate::checksum::{Crc16, crc16, lemma_crc16_append};
use crate::errors::{Error, limit_error};
use crate::flac::frame::{
    BlockSequence, FrameHeader, frame_header, is_likely_frame_header, likely_frame_header,
    read_frame_header,
};
use crate::flac::metadata::StreamInfo;
use crate::io::{BufStream, eof};

verus! {

/// The size of the largest possible valid FLAC frame header.
pub const FLAC_MAX_FRAME_HEADER_LEN: usize = 16;

/// The size of the largest possible complete and valid FLAC frame.
pub const FLAC_MAX_FRAME_LEN: usize = 16 * 1024 * 1024;

/// The average FLAC frame length.
pub const FLAC_AVG_FRAME_LEN: u32 = 8 * 1024;

/// The granularity of reads from the stream.
pub const BLOCK_LEN: usize = 4 * 1024;

/// The largest buffer the parser allocates, in bytes past the scan margin.
pub const MAX_BUFFER_ALLOC: usize = 0x4000_0000;

/// `value` rounded up to the next multiple of `pow2`.
pub open spec fn round_up(value: int, pow2: int) -> int {
    ((value + pow2 - 1) / pow2) * pow2
}

/// Rounds `value` up to the next multiple of the power of two `pow2`.
fn round_pow2(value: usize, pow2: usize) -> (r: usize)
    requires
        pow2 == BLOCK_LEN,
        value + pow2 - 1 <= usize::MAX,
    ensures
        r == round_up(value as int, pow2 as int),
{
    let v = value + (pow2 - 1);
    proof {
        assert(v & !(4095usize) == v - v % 4096) by (bit_vector);
    }
    v & !(pow2 - 1)
}

/// A candidate frame start: the position of a frame header preamble in the buffer, and the valid
/// frame header that follows it.
pub struct Fragment {
    pub pos: usize,
    pub header: FrameHeader,
}

/// The average of the recorded frame lengths.
pub open spec fn average_len(hist: [u32; 4]) -> int {
    (hist[0] + hist[1] + hist[2] + hist[3]) / 4
}

/// Whether bytes `p` and `p + 1` of `b` hold the frame header preamble.
pub open spec fn sync_at(b: Seq<u8>, p: int) -> bool {
    0 <= p && p + 1 < b.len() && b[p] == 0xff && 0xf8 <= b[p + 1] <= 0xfb
}

/// Bit `i` of a score set when `pred` holds of fragment `i`, for the first `n` fragments of `f`.
pub open spec fn score_bits(f: Seq<Fragment>, n: nat, pred: spec_fn(Fragment) -> bool) -> u8
    decreases n,
{
    if n == 0 {
        0
    } else {
        let rest = score_bits(f, (n - 1) as nat, pred);
        if pred(f[n - 1]) {
            rest | (1u8 << ((n - 1) as u8))
        } else {
            rest
        }
    }
}

/// The fragment's optional sample rate and bit depth match the stream's.
pub open spec fn par_ok(si: StreamInfo) -> spec_fn(Fragment) -> bool {
    |f: Fragment|
        f.header.sample_rate == Some(si.sample_rate) && f.header.bits_per_sample == Some(
            si.bits_per_sample,
        )
}

/// The fragment's number of samples lies within the stream's block size range.
pub open spec fn len_ok(si: StreamInfo) -> spec_fn(Fragment) -> bool {
    |f: Fragment|
        si.block_sample_len.0 <= f.header.block_num_samples && f.header.block_num_samples
            <= si.block_sample_len.1
}

/// The fragment's numbering matches the stream's blocking strategy and moves past `last_seq`.
pub open spec fn seq_ok(si: StreamInfo, last_seq: u64) -> spec_fn(Fragment) -> bool {
    |f: Fragment|
        match f.header.block_sequence {
            BlockSequence::BySample(sample) => si.block_sample_len.0 != si.block_sample_len.1 && (
            sample > last_seq || sample == 0),
            BlockSequence::ByFrame(frame) => si.block_sample_len.0 == si.block_sample_len.1 && (
            frame > last_seq || frame == 0),
        }
}

/// The best tier of candidates: those that pass all three tests, else those that pass the
/// sequence test and one other, else those that pass any.
pub open spec fn best_of(par: u8, len: u8, seq: u8) -> u8 {
    let first = (par & len) & seq;
    let second = (par | len) & seq;
    let third = (par | len) | seq;
    if first != 0 {
        first
    } else if second != 0 {
        second
    } else {
        third
    }
}

/// What a parser holds, as the contracts see it: its buffer, the end of the pending bytes in it,
/// the fragments found, how far the pending bytes were scanned, the recorded frame lengths and
/// the number of frames found.
#[verifier::ext_equal]
pub struct ParserModel {
    pub buf: Seq<u8>,
    pub block_write: int,
    pub fragments: Seq<Fragment>,
    pub fragment_read: int,
    pub hist: Seq<u32>,
    pub n_frames: int,
}

/// The average of the recorded frame lengths `h`.
pub open spec fn average_of(h: Seq<u32>) -> int {
    (h[0] + h[1] + h[2] + h[3]) / 4
}

/// How many bytes a read from the stream asks for.
pub open spec fn read_len_of(m: ParserModel) -> int {
    round_up(average_of(m.hist), BLOCK_LEN as int)
}

/// The error of a buffer that would grow past its limit.
pub open spec fn buffer_limit_error() -> Error {
    Error::LimitError("flac: buffer would exceed maximum size", MAX_BUFFER_ALLOC)
}

/// Reading the next block from byte `pos` of `d` after the pending bytes of `m`: the buffer first
/// doubles, with zeros, when the block would reach its end (an error past the limit); then the
/// block is read, or the stream ends first.
pub open spec fn fetch_block_spec(m: ParserModel, d: Seq<u8>, pos: int) -> Result<
    (ParserModel, int),
    Error,
> {
    let len = m.buf.len() - 8;
    let n = read_len_of(m);
    let next = m.block_write + n;
    let grow = next >= len;
    if grow && 2 * len > MAX_BUFFER_ALLOC {
        Err(buffer_limit_error())
    } else if pos + n > d.len() {
        Err(eof())
    } else {
        let b = if grow {
            m.buf + Seq::new((2 * len + 8 - m.buf.len()) as nat, |i: int| 0u8)
        } else {
            m.buf
        };
        Ok(
            (
                ParserModel {
                    buf: b.subrange(0, m.block_write) + d.subrange(pos, pos + n) + b.subrange(
                        next,
                        b.len() as int,
                    ),
                    block_write: next,
                    ..m
                },
                pos + n,
            ),
        )
    }
}

/// The fragments after one at `at` was tried with the stream information `si`: recorded when the
/// 16 bytes after the preamble pass a quick check and start with a valid frame header.
pub open spec fn try_fragment_spec(m: ParserModel, at: int) -> ParserModel {
    let hb = m.buf.subrange(at + 2, at + 18);
    let sync = (0xff * 256 + m.buf[at + 1]) as u16;
    let fh = frame_header(hb, 0, sync).0;
    if likely_frame_header(hb) && fh is Ok {
        ParserModel { fragments: m.fragments.push(Fragment { pos: at as usize, header: fh->Ok_0 }), ..m }
    } else {
        m
    }
}

/// Scanning the window of 8 bytes at `pos`, from byte `at` on, then the windows after it: a
/// preamble too close to the end of the pending bytes stops the scan at it.
pub open spec fn scan_at(m: ParserModel, pos: int, at: int) -> ParserModel
    decreases m.block_write - pos, pos + 8 - at,
{
    if pos >= m.block_write - 8 {
        m
    } else if at < pos || at >= pos + 8 {
        scan_windows(m, pos + 8)
    } else if sync_at(m.buf, at) {
        if at + FLAC_MAX_FRAME_HEADER_LEN >= m.block_write {
            ParserModel { fragment_read: at, ..m }
        } else {
            scan_at(try_fragment_spec(m, at), pos, at + 1)
        }
    } else {
        scan_at(m, pos, at + 1)
    }
}

/// Scanning the pending bytes of `m` for fragments, 8 bytes at a time from `pos`, while a whole
/// window lies before the last 8 pending bytes.
pub open spec fn scan_windows(m: ParserModel, pos: int) -> ParserModel
    decreases m.block_write - pos, 9int,
{
    if pos >= m.block_write - 8 {
        m
    } else {
        scan_at(ParserModel { fragment_read: pos + 8, ..m }, pos, pos)
    }
}

/// Fetching fragments: a block is read first when less than a frame header's length of unscanned
/// bytes is pending; then the pending bytes are scanned.
pub open spec fn fetch_fragments_spec(m: ParserModel, d: Seq<u8>, pos: int) -> Result<
    (ParserModel, int),
    Error,
> {
    let fetched = if m.fragment_read + FLAC_MAX_FRAME_HEADER_LEN >= m.block_write {
        fetch_block_spec(m, d, pos)
    } else {
        Ok((m, pos))
    };
    match fetched {
        Err(e) => Err(e),
        Ok((m1, p1)) => Ok((scan_windows(m1, m1.fragment_read), p1)),
    }
}

/// Dropping the first `len` bytes of the buffer of `m`, and moving every position with them; the
/// last `len` bytes of the buffer stay as they were.
pub open spec fn compact_spec(m: ParserModel, len: int) -> ParserModel {
    let total = m.buf.len() as int;
    ParserModel {
        buf: m.buf.subrange(len, total) + m.buf.subrange(total - len, total),
        block_write: m.block_write - len,
        fragments: m.fragments.map_values(
            |f: Fragment| Fragment { pos: (f.pos - len) as usize, header: f.header },
        ),
        fragment_read: m.fragment_read - len,
        ..m
    }
}

/// The number of fragments of `f` that start before `to`.
pub open spec fn count_before(f: Seq<Fragment>, to: int) -> nat
    decreases f.len(),
{
    if f.len() == 0 || f[0].pos >= to {
        0
    } else {
        1 + count_before(f.drop_first(), to)
    }
}

/// Discarding the fragments that start before `to`, and the pending bytes before it.
pub open spec fn remove_fragments_spec(m: ParserModel, to: int) -> ParserModel {
    compact_spec(
        ParserModel { fragments: m.fragments.skip(count_before(m.fragments, to) as int), ..m },
        to,
    )
}

/// The number of fragments scored in one round: at most 8.
pub open spec fn n_scored_of(f: Seq<Fragment>) -> int {
    if f.len() < 8 {
        f.len() as int
    } else {
        8
    }
}

/// The best tier of candidates among the first fragments of `m`.
pub open spec fn best_tier(m: ParserModel, si: StreamInfo, last_seq: u64) -> u8 {
    let n = n_scored_of(m.fragments) as nat;
    best_of(
        score_bits(m.fragments, n, par_ok(si)),
        score_bits(m.fragments, n, len_ok(si)),
        score_bits(m.fragments, n, seq_ok(si, last_seq)),
    )
}

/// The best-pick fragment and the candidate bits from it on: starting at fragment `k`, the
/// first fragment whose bit is set in `best`, or the last scored fragment.
pub open spec fn pick_from(best: u8, k: int, n: int) -> (int, u8)
    decreases n - k,
{
    if best & 1 != 0 || k + 1 >= n {
        (k, best)
    } else {
        pick_from(best >> 1, k + 1, n)
    }
}

/// Where fragment `t` of `m` starts, or the end of the pending bytes past the last fragment.
pub open spec fn bound(m: ParserModel, t: int) -> int {
    if t < m.fragments.len() {
        m.fragments[t].pos as int
    } else {
        m.block_write
    }
}

/// The bytes from the start of fragment `k` of `m` up to `end` form a frame: their last two
/// bytes are the CRC-16 of the bytes before them.
pub open spec fn frame_ends_at(m: ParserModel, k: int, end: int) -> bool {
    crc16(0, m.buf.subrange(bound(m, k), end - 2)) == m.buf[end - 2] * 256 + m.buf[end - 1]
}

/// Whether a merge gives up on a frame of `frame_len` bytes made of `count + 1` fragments, with
/// the candidate bits `best` from the best-pick on.
pub open spec fn merge_limit(m: ParserModel, si: StreamInfo, best: u8, frame_len: int, count: int) -> bool {
    ||| frame_len >= FLAC_MAX_FRAME_LEN
    ||| best & (2u8 << (count as u8)) != 0
    ||| if si.frame_byte_len.1 > 0 {
        frame_len > si.frame_byte_len.1
    } else if m.n_frames >= 4 {
        frame_len > 2 * average_of(m.hist)
    } else {
        count >= 4
    }
}

/// How a merge from the best-pick fragment `k` ends.
pub enum MergeEnd {
    /// A frame ends at this position.
    Frame(int),
    /// A limit was hit.
    Limit,
    /// The scored fragments ran out.
    Exhausted,
}

/// Merging the fragments of `m` from the best-pick fragment `k`, having merged those before
/// fragment `j + 1`.
pub open spec fn merge_from(m: ParserModel, si: StreamInfo, n: int, k: int, best: u8, j: int) -> MergeEnd
    decreases n - j,
{
    if j + 1 >= n {
        MergeEnd::Exhausted
    } else if frame_ends_at(m, k, bound(m, j + 1)) {
        MergeEnd::Frame(bound(m, j + 1))
    } else if merge_limit(m, si, best, bound(m, j + 1) - bound(m, k), j - k) {
        MergeEnd::Limit
    } else {
        merge_from(m, si, n, k, best, j + 1)
    }
}

/// The number of fragments dropped while the low bit of `b` is clear, among `len` fragments.
pub open spec fn drop_zeros(b: u8, len: int) -> int
    decreases len,
{
    if len > 0 && b & 1 == 0 {
        1 + drop_zeros(b >> 1, len - 1)
    } else {
        0
    }
}

/// One round of the parser on `m`: the fragments are scored, those before the best-pick are
/// dropped and fragments are merged from it. A frame found is handed out, recorded in the frame
/// lengths, and its bytes and fragments are discarded. On a limit, the best-pick fragment, or
/// every fragment before the second-best, is dropped.
pub open spec fn round_spec(m: ParserModel, si: StreamInfo, last_seq: u64) -> (
    Option<Seq<u8>>,
    ParserModel,
) {
    let f = m.fragments;
    let n = n_scored_of(f);
    if n == 0 {
        (None, m)
    } else {
        let (k, best) = pick_from(best_tier(m, si, last_seq), 0, n);
        match merge_from(m, si, n, k, best, k) {
            MergeEnd::Frame(end) => {
                let start = bound(m, k);
                let recorded = ParserModel {
                    fragments: f.skip(k),
                    hist: m.hist.update(m.n_frames % 4, (end - start) as u32),
                    n_frames: if m.n_frames < usize::MAX {
                        m.n_frames + 1
                    } else {
                        m.n_frames
                    },
                    ..m
                };
                (Some(m.buf.subrange(start, end)), remove_fragments_spec(recorded, end))
            },
            MergeEnd::Limit => {
                let dropped = if best & 0xfe != 0 {
                    k + drop_zeros(best & !1u8, f.len() - k)
                } else {
                    k + 1
                };
                (None, ParserModel { fragments: f.skip(dropped), ..m })
            },
            MergeEnd::Exhausted => (None, ParserModel { fragments: f.skip(k), ..m }),
        }
    }
}

/// Parsing from `m` and byte `pos` of `d` within `fuel` rounds: the frame found, the parser and
/// the position after it, or the error of a failed read; `None` when `fuel` runs out first.
pub open spec fn parse_spec(
    m: ParserModel,
    si: StreamInfo,
    last_seq: u64,
    d: Seq<u8>,
    pos: int,
    fuel: nat,
) -> Option<Result<(Seq<u8>, ParserModel, int), Error>>
    decreases fuel,
{
    if fuel == 0 {
        None
    } else {
        let (frame, m1) = round_spec(m, si, last_seq);
        match frame {
            Some(fr) => Some(Ok((fr, m1, pos))),
            None => match fetch_fragments_spec(m1, d, pos) {
                Err(e) => Some(Err(e)),
                Ok((m2, p2)) => parse_spec(m2, si, last_seq, d, p2, (fuel - 1) as nat),
            },
        }
    }
}

/// Parses FLAC frames out of a stream whose frame boundaries are not known.
pub struct PacketParser {
    stream_info: StreamInfo,
    last_seq: u64,
    buf: Vec<u8>,
    block_write: usize,
    fragments: VecDeque<Fragment>,
    fragment_read: usize,
    frame_size_hist: [u32; 4],
    n_frames: usize,
}

impl PacketParser {
    /// The parser as the contracts see it.
    pub closed spec fn model(&self) -> ParserModel {
        ParserModel {
            buf: self.buf@,
            block_write: self.block_write as int,
            fragments: self.fragments@,
            fragment_read: self.fragment_read as int,
            hist: self.frame_size_hist@,
            n_frames: self.n_frames as int,
        }
    }

    /// The last frame number or sample seen, which fragments must move past.
    pub closed spec fn last_seq_spec(&self) -> u64 {
        self.last_seq
    }

    /// The bytes read from the stream and not yet handed out as part of a frame.
    pub closed spec fn pending(&self) -> Seq<u8> {
        self.buf@.subrange(0, self.block_write as int)
    }

    /// How many bytes the next read from the stream asks for: the average recorded frame length
    /// rounded up to a multiple of the block size.
    pub closed spec fn block_read_len(&self) -> int {
        round_up(average_len(self.frame_size_hist), BLOCK_LEN as int)
    }

    /// The stream information the parser checks fragments against.
    pub closed spec fn info(&self) -> StreamInfo {
        self.stream_info
    }

    /// The buffer holds the pending bytes and a scan margin, its size is a multiple of the block
    /// size, and the recorded frame lengths fit in it. Every fragment lies in the scanned part of
    /// the pending bytes with room for a frame header after it, starts with the frame header
    /// preamble, and fragments are in increasing order, at least two bytes apart.
    pub closed spec fn wf(&self) -> bool {
        let len = self.buf@.len() - 8;
        let f = self.fragments@;
        &&& 2 * BLOCK_LEN <= len <= MAX_BUFFER_ALLOC
        &&& len % (BLOCK_LEN as int) == 0
        &&& self.block_write <= len
        &&& self.fragment_read <= self.block_write
        &&& forall|k: int| 0 <= k < 4 ==> 1 <= #[trigger] self.frame_size_hist[k] <= len
        &&& forall|k: int|
            0 <= k < f.len() ==> {
                &&& (#[trigger] f[k]).pos + FLAC_MAX_FRAME_HEADER_LEN < self.block_write
                &&& f[k].pos < self.fragment_read
                &&& sync_at(self.buf@, f[k].pos as int)
            }
        &&& forall|i: int, j: int|
            0 <= i < j < f.len() ==> (#[trigger] f[i]).pos + 2 <= (#[trigger] f[j]).pos
    }
}

impl Default for PacketParser {
    fn default() -> (r: Self)
        ensures
            r.wf(),
            r.pending().len() == 0,
            r.block_read_len() == FLAC_AVG_FRAME_LEN,
            r.info().sample_rate == 0 && r.info().bits_per_sample == 0,
            r.info().block_sample_len == (0u16, 0u16),
            r.info().frame_byte_len == (0u32, 0u32),
    {
        let stream_info = StreamInfo {
            block_sample_len: (0, 0),
            frame_byte_len: (0, 0),
            sample_rate: 0,
            channels: Channels::empty(),
            bits_per_sample: 0,
            n_samples: None,
            md5: [0u8; 16],
        };
        let r = PacketParser {
            buf: vec![0u8; 2 * BLOCK_LEN + 8],
            block_write: 0,
            fragments: VecDeque::new(),
            fragment_read: 0,
            frame_size_hist: [FLAC_AVG_FRAME_LEN; 4],
            n_frames: 0,
            stream_info,
            last_seq: 0,
        };
        assert(r.frame_size_hist[0] == FLAC_AVG_FRAME_LEN);
        r
    }
}

impl PacketParser {
    /// Prepares the parser for a new stream: checks fragments against `stream_info` from now on,
    /// and forgets the recorded frame lengths and the frame numbering. Buffered bytes and
    /// fragments are kept.
    pub fn reset(&mut self, stream_info: StreamInfo)
        requires
            old(self).wf(),
        ensures
            final(self).wf(),
            final(self).info() == stream_info,
            final(self).pending() == old(self).pending(),
            final(self).block_read_len() == FLAC_AVG_FRAME_LEN,
    {
        self.stream_info = stream_info;
        self.frame_size_hist = [FLAC_AVG_FRAME_LEN; 4];
        self.n_frames = 0;
        self.last_seq = 0;
        assert(self.frame_size_hist[0] == FLAC_AVG_FRAME_LEN);
    }

    /// Scores up to 8 fragments. Returns the best tier of candidates as a bit set over the
    /// fragments, the number of fragments scored, and the bounds of those fragments: the position
    /// of each, then that of the next fragment, or the end of the pending bytes.
    fn score(&self) -> (r: (u8, usize, [usize; 9]))
        requires
            self.wf(),
        ensures
            ({
                let f = self.fragments@;
                let n = r.1;
                &&& n == if f.len() < 8 { f.len() } else { 8 }
                &&& forall|k: int| 0 <= k < n ==> r.2[k] == f[k].pos
                &&& r.2[n as int] == if n < f.len() { f[n as int].pos } else { self.block_write }
                &&& r.0 == best_of(
                    score_bits(f, n as nat, par_ok(self.stream_info)),
                    score_bits(f, n as nat, len_ok(self.stream_info)),
                    score_bits(f, n as nat, seq_ok(self.stream_info, self.last_seq)),
                )
            }),
    {
        let n_fragments: usize = if self.fragments.len() < 8 { self.fragments.len() } else { 8 };
        let mut indicies: [usize; 9] = [0; 9];
        let mut score_par: u8 = 0;
        let mut score_len: u8 = 0;
        let mut score_seq: u8 = 0;
        let ghost f = self.fragments@;
        let si = &self.stream_info;
        let is_fixed = si.block_sample_len.0 == si.block_sample_len.1;
        let mut i: usize = 0;
        while i < n_fragments
            invariant
                f == self.fragments@,
                si == &self.stream_info,
                is_fixed == (si.block_sample_len.0 == si.block_sample_len.1),
                n_fragments <= f.len(),
                n_fragments <= 8,
                i <= n_fragments,
                score_par == score_bits(f, i as nat, par_ok(self.stream_info)),
                score_len == score_bits(f, i as nat, len_ok(self.stream_info)),
                score_seq == score_bits(f, i as nat, seq_ok(self.stream_info, self.last_seq)),
                forall|k: int| 0 <= k < i ==> indicies[k] == f[k].pos,
            decreases n_fragments - i,
        {
            let fragment = &self.fragments[i];
            let h = &fragment.header;
            // The optional parameters of the stream information block match the fragment's.
            if let Some(sample_rate) = h.sample_rate {
                if let Some(bps) = h.bits_per_sample {
                    if sample_rate == si.sample_rate && bps == si.bits_per_sample {
                        score_par = score_par | (1u8 << (i as u8));
                    }
                }
            }
            // The fragment's sample length is within the range given by the stream information.
            if h.block_num_samples >= si.block_sample_len.0 && h.block_num_samples
                <= si.block_sample_len.1 {
                score_len = score_len | (1u8 << (i as u8));
            }
            // The fragment's blocking strategy is consistent with the stream information, and
            // its sequence number moves forward.
            let is_monotonic = match h.block_sequence {
                BlockSequence::BySample(sample) => !is_fixed && (sample > self.last_seq || sample
                    == 0),
                BlockSequence::ByFrame(frame) => is_fixed && (frame as u64 > self.last_seq || frame
                    == 0),
            };
            if is_monotonic {
                score_seq = score_seq | (1u8 << (i as u8));
            }
            indicies[i] = fragment.pos;
            i = i + 1;
        }
        indicies[n_fragments] = if n_fragments < self.fragments.len() {
            self.fragments[n_fragments].pos
        } else {
            self.block_write
        };
        // Three descending tiers of confidence. A set bit marks a fragment likely to start a
        // frame. If no bit is set at all, the stream is either very corrupt, or not FLAC.
        let first = (score_par & score_len) & score_seq;
        let second = (score_par | score_len) & score_seq;
        let third = (score_par | score_len) | score_seq;
        let best = if first != 0 {
            first
        } else if second != 0 {
            second
        } else {
            third
        };
        (best, n_fragments, indicies)
    }
}

impl PacketParser {
    /// Reads the next block from `reader` into the buffer, after the pending bytes, growing the
    /// buffer to twice its size when the block would not fit.
    fn fetch_block(&mut self, reader: &mut BufStream) -> (r: Result<(), Error>)
        requires
            old(self).wf(),
        ensures
            final(self).wf(),
            final(reader).data() == old(reader).data(),
            final(self).fragments@ == old(self).fragments@,
            final(self).fragment_read == old(self).fragment_read,
            final(self).frame_size_hist == old(self).frame_size_hist,
            final(self).n_frames == old(self).n_frames,
            final(self).stream_info == old(self).stream_info,
            final(self).last_seq == old(self).last_seq,
            old(self).block_read_len() > 0,
            match fetch_block_spec(
                old(self).model(),
                old(reader).data(),
                old(reader).position() as int,
            ) {
                Ok((m2, p2)) => r is Ok && final(self).model() == m2 && final(reader).position()
                    == p2,
                Err(e) => r == Err::<(), Error>(e),
            },
            match r {
                Ok(()) => {
                    &&& old(reader).position() + old(self).block_read_len() <= old(reader).data().len()
                    &&& final(reader).position() == old(reader).position() + old(self).block_read_len()
                    &&& final(self).block_write == old(self).block_write + old(self).block_read_len()
                    &&& final(self).pending() == old(self).pending() + old(reader).data().subrange(
                        old(reader).position() as int,
                        final(reader).position() as int,
                    )
                },
                Err(e) => {
                    &&& final(self).pending() == old(self).pending()
                    &&& final(reader).position() == old(reader).position()
                    &&& final(self).block_write == old(self).block_write
                    &&& (e == eof() && old(reader).position() + old(self).block_read_len()
                        > old(reader).data().len() || e == Error::LimitError(
                        "flac: buffer would exceed maximum size",
                        MAX_BUFFER_ALLOC,
                    ))
                },
            },
    {
        let len = self.buf.len() - 8;
        let h = self.frame_size_hist;
        // The average frame size.
        let avg_frame_size = ((h[0] as u64 + h[1] as u64 + h[2] as u64 + h[3] as u64) / 4) as usize;
        assert(avg_frame_size == average_len(self.frame_size_hist));
        // Round up to the nearest block size multiple.
        let block_read_len = round_pow2(avg_frame_size, BLOCK_LEN);
        assert(block_read_len <= len) by {
            assert(avg_frame_size <= len);
            assert(len % 4096 == 0);
            assert(round_up(avg_frame_size as int, 4096) <= len) by (nonlinear_arith)
                requires
                    avg_frame_size <= len,
                    len % 4096 == 0,
                    len >= 0,
            {
                vstd::arithmetic::div_mod::lemma_div_is_ordered(
                    avg_frame_size + 4095,
                    len + 4095,
                    4096,
                );
            }
        }
        assert(block_read_len > 0) by (nonlinear_arith)
            requires
                block_read_len == round_up(avg_frame_size as int, 4096),
                avg_frame_size >= 1,
        ;
        let new_block_write = self.block_write + block_read_len;
        let ghost s0 = *self;
        if new_block_write >= len {
            // Grow the buffer to twice its existing length.
            let new_size = round_pow2(2 * len, BLOCK_LEN);
            if new_size > MAX_BUFFER_ALLOC {
                return limit_error("flac: buffer would exceed maximum size", MAX_BUFFER_ALLOC);
            }
            resize_zeroed(&mut self.buf, new_size + 8);
            assert(new_size == 2 * len) by (nonlinear_arith)
                requires
                    new_size == round_up(2 * len, 4096),
                    len % 4096 == 0,
            ;
        }
        assert(new_block_write + 8 <= self.buf@.len());
        let ghost grown = self.buf@;
        assert(grown.subrange(0, s0.block_write as int) == s0.buf@.subrange(0, s0.block_write as int));
        match read_block_into(&mut self.buf, self.block_write, block_read_len, reader) {
            Ok(()) => {},
            Err(e) => {
                proof {
                    s0.lemma_wf_grown(&*self);
                }
                return Err(e);
            },
        }
        self.block_write = new_block_write;
        proof {
            s0.lemma_wf_grown(&*self);
            let om = s0.model();
            assert(om.hist[0] == h[0] && om.hist[1] == h[1] && om.hist[2] == h[2] && om.hist[3]
                == h[3]);
            let b = if new_block_write >= len {
                om.buf + Seq::new((2 * len + 8 - om.buf.len()) as nat, |i: int| 0u8)
            } else {
                om.buf
            };
            assert(grown =~= b);
            let ghost p0 = old(reader).position() as int;
            assert(self.buf@ =~= b.subrange(0, s0.block_write as int) + old(reader).data().subrange(
                p0,
                p0 + block_read_len,
            ) + b.subrange(new_block_write as int, b.len() as int)) by {
                let nb = self.buf@;
                assert(nb.subrange(0, s0.block_write as int) == grown.subrange(0, s0.block_write as int));
                assert(nb =~= nb.subrange(0, s0.block_write as int) + nb.subrange(
                    s0.block_write as int,
                    new_block_write as int,
                ) + nb.subrange(new_block_write as int, nb.len() as int));
            }
            assert(self.frame_size_hist@ =~= om.hist);
        }
        Ok(())
    }

    /// A parser keeps its well-formedness when its buffer grows to a larger multiple of the
    /// block size and more bytes become pending, the earlier pending bytes staying as they were.
    proof fn lemma_wf_grown(&self, other: &Self)
        requires
            self.wf(),
            other.fragments@ == self.fragments@,
            other.fragment_read == self.fragment_read,
            other.frame_size_hist == self.frame_size_hist,
            self.block_write <= other.block_write,
            other.block_write + 8 <= other.buf@.len(),
            self.buf@.len() <= other.buf@.len(),
            other.buf@.len() - 8 <= MAX_BUFFER_ALLOC,
            (other.buf@.len() - 8) % (BLOCK_LEN as int) == 0,
            other.buf@.subrange(0, self.block_write as int) == self.buf@.subrange(
                0,
                self.block_write as int,
            ),
        ensures
            other.wf(),
    {
        assert forall|k: int| 0 <= k < other.fragments@.len() implies sync_at(
            other.buf@,
            (#[trigger] other.fragments@[k]).pos as int,
        ) by {
            let p = other.fragments@[k].pos as int;
            assert(sync_at(self.buf@, p));
            assert(other.buf@[p] == other.buf@.subrange(0, self.block_write as int)[p]);
            assert(other.buf@[p + 1] == other.buf@.subrange(0, self.block_write as int)[p + 1]);
        }
    }
}

/// Reads `n` bytes from `reader` into `buf` at `at`, or nothing if the stream ends first.
fn read_block_into(buf: &mut Vec<u8>, at: usize, n: usize, reader: &mut BufStream) -> (r: Result<
    (),
    Error,
>)
    requires
        at + n <= old(buf)@.len(),
    ensures
        final(reader).data() == old(reader).data(),
        final(buf)@.len() == old(buf)@.len(),
        final(buf)@.subrange(0, at as int) == old(buf)@.subrange(0, at as int),
        final(buf)@.subrange(at + n, old(buf)@.len() as int) == old(buf)@.subrange(
            at + n,
            old(buf)@.len() as int,
        ),
        match r {
            Ok(()) => {
                &&& old(reader).position() + n <= old(reader).data().len()
                &&& final(reader).position() == old(reader).position() + n
                &&& final(buf)@.subrange(at as int, at + n) == old(reader).data().subrange(
                    old(reader).position() as int,
                    old(reader).position() + n,
                )
            },
            Err(e) => {
                &&& e == eof()
                &&& old(reader).position() + n > old(reader).data().len()
                &&& final(reader).position() == old(reader).position()
            },
        },
{
    let (_, tail) = buf.as_mut_slice().split_at_mut(at);
    let (dst, _) = tail.split_at_mut(n);
    reader.read_buf_bytes(dst)
}

/// Sets the length of `v` to `n`, filling new elements with zero.
fn resize_zeroed(v: &mut Vec<u8>, n: usize)
    requires
        n >= old(v)@.len(),
    ensures
        final(v)@.len() == n,
        final(v)@.subrange(0, old(v)@.len() as int) == old(v)@,
        final(v)@ == old(v)@ + Seq::new((n - old(v)@.len()) as nat, |i: int| 0u8),
{
    while v.len() < n
        invariant
            v@.len() <= n,
            v@.subrange(0, old(v)@.len() as int) == old(v)@,
            v@.len() >= old(v)@.len(),
            forall|j: int| old(v)@.len() <= j < v@.len() ==> v@[j] == 0u8,
        decreases n - v@.len(),
    {
        v.push(0);
    }
    assert(v@ =~= old(v)@ + Seq::new((n - old(v)@.len()) as nat, |i: int| 0u8));
}

/// Whether one of the 8 bytes of `b` from `pos` is `0xff`.
fn window_has_ff(b: &Vec<u8>, pos: usize) -> (r: bool)
    requires
        pos + 8 <= b@.len(),
    ensures
        r == exists|k: int| 0 <= k < 8 && #[trigger] b@[pos + k] == 0xff,
{
    let n = b.len();
    let mut k: usize = 0;
    while k < 8
        invariant
            n == b@.len(),
            pos + 8 <= b@.len(),
            k <= 8,
            forall|j: int| 0 <= j < k ==> #[trigger] b@[pos + j] != 0xff,
        decreases 8 - k,
    {
        if b[pos + k] == 0xff {
            assert(b@[pos + k as int] == 0xff);
            return true;
        }
        k = k + 1;
    }
    false
}

/// The 16 bytes of `b` from `pos`.
fn copy_header_bytes(b: &Vec<u8>, pos: usize) -> (r: [u8; 16])
    requires
        pos + 16 <= b@.len(),
    ensures
        r@ == b@.subrange(pos as int, pos + 16),
{
    let mut out = [0u8; 16];
    let n = b.len();
    let mut k: usize = 0;
    while k < 16
        invariant
            n == b@.len(),
            pos + 16 <= b@.len(),
            k <= 16,
            forall|j: int| 0 <= j < k ==> out@[j] == b@[pos + j],
        decreases 16 - k,
    {
        out[k] = b[pos + k];
        k = k + 1;
    }
    assert(out@ =~= b@.subrange(pos as int, pos + 16));
    out
}

impl PacketParser {
    /// Reads a block from `reader` when less than a frame header's length of unscanned bytes is
    /// pending, then scans the pending bytes, 8 at a time, for frame header preambles followed
    /// by a valid frame header, and records each as a fragment. A preamble too close to the end
    /// of the pending bytes stops the scan before it.
    fn fetch_fragments(&mut self, reader: &mut BufStream) -> (r: Result<(), Error>)
        requires
            old(self).wf(),
        ensures
            final(self).wf(),
            final(reader).data() == old(reader).data(),
            final(self).frame_size_hist == old(self).frame_size_hist,
            final(self).n_frames == old(self).n_frames,
            final(self).stream_info == old(self).stream_info,
            final(self).last_seq == old(self).last_seq,
            old(self).fragments@.is_prefix_of(final(self).fragments@),
            old(reader).position() <= final(reader).position(),
            final(self).pending() == old(self).pending() + old(reader).data().subrange(
                old(reader).position() as int,
                final(reader).position() as int,
            ),
            r is Ok ==> old(reader).position() < final(reader).position() || (
            final(self).block_write == old(self).block_write && final(self).fragment_read
                > old(self).fragment_read),
            r matches Err(e) ==> final(reader).position() == old(reader).position() && (e
                == eof() && old(reader).position() + old(self).block_read_len()
                > old(reader).data().len() || e == Error::LimitError(
                "flac: buffer would exceed maximum size",
                MAX_BUFFER_ALLOC,
            )),
            match fetch_fragments_spec(
                old(self).model(),
                old(reader).data(),
                old(reader).position() as int,
            ) {
                Ok((m2, p2)) => r is Ok && final(self).model() == m2 && final(reader).position()
                    == p2,
                Err(e) => r == Err::<(), Error>(e),
            },
    {
        let ghost d = reader.data();
        let ghost p0 = reader.position();
        proof {
            reader.lemma_position_bound();
        }
        assert(old(self).pending() =~= old(self).pending() + d.subrange(p0 as int, p0 as int));
        if self.fragment_read + FLAC_MAX_FRAME_HEADER_LEN >= self.block_write {
            self.fetch_block(reader)?;
        }
        let ghost f0 = self.fragments@;
        let ghost fr0 = self.fragment_read;
        let ghost target = scan_windows(self.model(), self.fragment_read as int);
        assert(fetch_fragments_spec(old(self).model(), d, p0 as int) == Ok::<(ParserModel, int), Error>(
            (target, reader.position() as int),
        ));
        let bw = self.block_write;
        let end = bw - 8;
        let mut pos = self.fragment_read;
        // Scan for fragments, 8 bytes at a time.
        while pos < end
            invariant
                self.wf(),
                reader.data() == d,
                d == old(reader).data(),
                p0 == old(reader).position(),
                old(reader).position() <= reader.position(),
                reader.position() == p0 ==> fr0 == old(self).fragment_read && bw
                    == old(self).block_write && fr0 + FLAC_MAX_FRAME_HEADER_LEN < bw,
                self.pending() == old(self).pending() + d.subrange(
                    old(reader).position() as int,
                    reader.position() as int,
                ),
                self.frame_size_hist == old(self).frame_size_hist,
                self.n_frames == old(self).n_frames,
                self.stream_info == old(self).stream_info,
                self.last_seq == old(self).last_seq,
                old(self).fragments@.is_prefix_of(self.fragments@),
                self.block_write == bw,
                end == bw - 8,
                fr0 <= pos,
                self.fragment_read == pos,
                pos == fr0 || pos > fr0 + 7,
                target == scan_windows(self.model(), pos as int),
                fetch_fragments_spec(old(self).model(), d, p0 as int) == Ok::<(ParserModel, int), Error>(
                    (target, reader.position() as int),
                ),
            decreases end + 8 - pos,
        {
            self.fragment_read = pos + 8;
            proof {
                let ghost mm = self.model();
                assert(target == scan_at(mm, pos as int, pos as int));
            }
            // Without a single 0xff byte in the window there cannot be a preamble that starts
            // in it.
            if window_has_ff(&self.buf, pos) {
                // Otherwise, there may be a preamble: scan for it byte by byte.
                let mut sync: u16 = 0;
                let mut i: usize = 0;
                while i < 9
                    invariant
                        self.wf(),
                        reader.data() == d,
                        d == old(reader).data(),
                        p0 == old(reader).position(),
                        old(reader).position() <= reader.position(),
                        reader.position() == p0 ==> fr0 == old(self).fragment_read && bw
                            == old(self).block_write && fr0 + FLAC_MAX_FRAME_HEADER_LEN < bw,
                        self.pending() == old(self).pending() + d.subrange(
                            old(reader).position() as int,
                            reader.position() as int,
                        ),
                        self.frame_size_hist == old(self).frame_size_hist,
                        self.n_frames == old(self).n_frames,
                        self.stream_info == old(self).stream_info,
                        self.last_seq == old(self).last_seq,
                        old(self).fragments@.is_prefix_of(self.fragments@),
                        self.block_write == bw,
                        end == bw - 8,
                        fr0 <= pos < end,
                        pos == fr0 || pos > fr0 + 7,
                        self.fragment_read == pos + 8,
                        i <= 9,
                        sync == if i == 0 {
                            0
                        } else {
                            (if i == 1 { 0 } else { self.buf@[pos + i - 2] as int }) * 256
                                + self.buf@[pos + i - 1]
                        },
                        forall|k: int|
                            0 <= k < self.fragments@.len() ==> #[trigger] self.fragments@[k].pos
                                + 1 < pos + i || self.fragments@[k].pos < pos,
                        target == scan_at(
                            self.model(),
                            pos as int,
                            if i == 0 {
                                pos as int
                            } else {
                                pos + i - 1
                            },
                        ),
                        fetch_fragments_spec(old(self).model(), d, p0 as int) == Ok::<(ParserModel, int), Error>(
                            (target, reader.position() as int),
                        ),
                    decreases 9 - i,
                {
                    let byte = self.buf[pos + i];
                    let prev = sync;
                    proof {
                        assert((prev << 8u16) | (byte as u16) == (prev % 256) * 256 + byte)
                            by (bit_vector);
                    }
                    sync = (sync << 8) | (byte as u16);
                    let ghost hi: int = if i == 0 { 0 } else { self.buf@[pos + i - 1] as int };
                    assert(sync == hi * 256 + byte);
                    proof {
                        let s16 = sync;
                        let h8 = hi as u8;
                        assert((s16 & 0xfffc) == 0xfff8 <==> (h8 == 0xff && 0xf8 <= byte
                            <= 0xfb)) by (bit_vector)
                            requires
                                s16 == h8 * 256 + byte,
                        ;
                    }
                    // If the preamble was found, look for a valid frame header after it.
                    if (sync & 0xfffc) == 0xfff8 {
                        let at = pos + i - 1;
                        // Without enough bytes to parse a frame header, no more fragments can be
                        // found until more bytes are read.
                        if at + FLAC_MAX_FRAME_HEADER_LEN >= self.block_write {
                            self.fragment_read = at;
                            return Ok(());
                        }
                        let ghost fb = self.fragments@;
                        self.try_fragment(at, sync);
                        assert forall|k: int| 0 <= k < self.fragments@.len() implies #[trigger] self.fragments@[k].pos
                            + 1 < pos + i + 1 || self.fragments@[k].pos < pos by {
                            if k < fb.len() {
                                assert(self.fragments@[k] == fb[k]);
                            }
                        }
                    }
                    i = i + 1;
                }
            } else {
                proof {
                    lemma_scan_without_ff(self.model(), pos as int, pos as int);
                }
            }
            pos = pos + 8;
        }
        Ok(())
    }
}

/// A window without a 0xff byte holds no preamble: scanning it leaves the parser as it was.
proof fn lemma_scan_without_ff(m: ParserModel, pos: int, at: int)
    requires
        pos < m.block_write - 8,
        pos <= at <= pos + 8,
        pos + 8 <= m.buf.len(),
        forall|k: int| 0 <= k < 8 ==> #[trigger] m.buf[pos + k] != 0xff,
    ensures
        scan_at(m, pos, at) == scan_windows(m, pos + 8),
    decreases pos + 8 - at,
{
    if at < pos + 8 {
        assert(m.buf[pos + (at - pos)] != 0xff);
        lemma_scan_without_ff(m, pos, at + 1);
    }
}

impl PacketParser {
    /// Records a fragment at the preamble at `at` when the 16 bytes after the preamble pass a
    /// quick check and start with a valid frame header.
    fn try_fragment(&mut self, at: usize, sync: u16)
        requires
            old(self).wf(),
            sync_at(old(self).buf@, at as int),
            sync == 0xff * 256 + old(self).buf@[at + 1],
            at + FLAC_MAX_FRAME_HEADER_LEN < old(self).block_write,
            at < old(self).fragment_read,
            forall|k: int|
                0 <= k < old(self).fragments@.len() ==> (#[trigger] old(self).fragments@[k]).pos
                    < at,
        ensures
            final(self).wf(),
            final(self).buf == old(self).buf,
            final(self).block_write == old(self).block_write,
            final(self).fragment_read == old(self).fragment_read,
            final(self).frame_size_hist == old(self).frame_size_hist,
            final(self).n_frames == old(self).n_frames,
            final(self).stream_info == old(self).stream_info,
            final(self).last_seq == old(self).last_seq,
            old(self).fragments@.is_prefix_of(final(self).fragments@),
            final(self).fragments@.len() <= old(self).fragments@.len() + 1,
            final(self).fragments@.len() == old(self).fragments@.len() + 1
                ==> final(self).fragments@.last().pos == at,
            final(self).model() == try_fragment_spec(old(self).model(), at as int),
            ({
                let hb = old(self).buf@.subrange(at + 2, at + 18);
                let fh = frame_header(hb, 0, sync).0;
                if likely_frame_header(hb) && fh is Ok {
                    final(self).fragments@ == old(self).fragments@.push(
                        Fragment { pos: at, header: fh->Ok_0 },
                    )
                } else {
                    final(self).fragments@ == old(self).fragments@
                }
            }),
    {
        let ghost om = self.model();
        let hdr = copy_header_bytes(&self.buf, at + 2);
        // A header that passes a quick sanity check is parsed in full.
        if is_likely_frame_header(hdr.as_slice()) {
            let mut hs = BufStream::new(hdr.as_slice());
            if let Ok(header) = read_frame_header(&mut hs, sync) {
                let ghost fb = self.fragments@;
                self.fragments.push_back(Fragment { pos: at, header });
                assert(fb.is_prefix_of(self.fragments@));
                assert forall|i: int, j: int|
                    0 <= i < j < self.fragments@.len() implies (#[trigger] self.fragments@[i]).pos
                    + 2 <= (#[trigger] self.fragments@[j]).pos by {
                    if j == fb.len() {
                        let p = fb[i].pos;
                        assert(p < at);
                        assert(sync_at(self.buf@, p as int));
                    } else {
                        assert(self.fragments@[i] == fb[i] && self.fragments@[j] == fb[j]);
                    }
                }
                assert forall|k: int| 0 <= k < self.fragments@.len() implies {
                    &&& (#[trigger] self.fragments@[k]).pos + FLAC_MAX_FRAME_HEADER_LEN
                        < self.block_write
                    &&& self.fragments@[k].pos < self.fragment_read
                    &&& sync_at(self.buf@, self.fragments@[k].pos as int)
                } by {
                    if k < fb.len() {
                        assert(self.fragments@[k] == fb[k]);
                    }
                }
            }
        }
        proof {
            let ts = try_fragment_spec(om, at as int);
            assert(self.frame_size_hist@ =~= ts.hist);
            assert(self.model() =~= ts);
        }
    }
}

impl PacketParser {
    /// Drops the first `len` pending bytes: moves the buffer's contents down by `len` and every
    /// position with them.
    fn compact(&mut self, len: usize)
        requires
            old(self).wf(),
            len <= old(self).fragment_read,
            forall|k: int|
                0 <= k < old(self).fragments@.len() ==> len <= (#[trigger] old(
                    self,
                ).fragments@[k]).pos,
        ensures
            final(self).wf(),
            final(self).pending() == old(self).pending().subrange(
                len as int,
                old(self).block_write as int,
            ),
            final(self).block_write == old(self).block_write - len,
            final(self).fragment_read == old(self).fragment_read - len,
            final(self).fragments@.len() == old(self).fragments@.len(),
            final(self).model() == compact_spec(old(self).model(), len as int),
            final(self).frame_size_hist == old(self).frame_size_hist,
            final(self).n_frames == old(self).n_frames,
            final(self).stream_info == old(self).stream_info,
            final(self).last_seq == old(self).last_seq,
    {
        let ghost b0 = self.buf@;
        let ghost f0 = self.fragments@;
        let n = self.fragments.len();
        let mut moved: VecDeque<Fragment> = VecDeque::new();
        let mut k: usize = 0;
        while k < n
            invariant
                n == f0.len(),
                k <= n,
                self.buf@ == b0,
                self.block_write == old(self).block_write,
                self.fragment_read == old(self).fragment_read,
                self.frame_size_hist == old(self).frame_size_hist,
                self.n_frames == old(self).n_frames,
                self.stream_info == old(self).stream_info,
                self.last_seq == old(self).last_seq,
                self.fragments@ == f0.subrange(k as int, n as int),
                moved@.len() == k,
                forall|j: int|
                    0 <= j < k ==> (#[trigger] moved@[j]).pos == f0[j].pos - len
                        && moved@[j].header == f0[j].header,
                forall|j: int| 0 <= j < n ==> len <= (#[trigger] f0[j]).pos,
            decreases n - k,
        {
            let f = self.fragments.pop_front();
            match f {
                Some(f) => {
                    assert(f == f0[k as int]);
                    moved.push_back(Fragment { pos: f.pos - len, header: f.header });
                },
                None => {},
            }
            k = k + 1;
        }
        self.fragments = moved;
        let ghost fm = self.fragments@;
        // Move the buffer's contents down.
        let total = self.buf.len();
        let mut i: usize = 0;
        while i + len < total
            invariant
                self.fragments@ == fm,
                self.block_write == old(self).block_write,
                self.fragment_read == old(self).fragment_read,
                len <= old(self).fragment_read <= old(self).block_write,
                self.frame_size_hist == old(self).frame_size_hist,
                self.n_frames == old(self).n_frames,
                self.stream_info == old(self).stream_info,
                self.last_seq == old(self).last_seq,
                total == b0.len(),
                self.buf@.len() == total,
                len <= total,
                i + len <= total,
                forall|j: int| 0 <= j < i ==> #[trigger] self.buf@[j] == b0[j + len],
                forall|j: int| i <= j < total ==> #[trigger] self.buf@[j] == b0[j],
            decreases total - i,
        {
            let v = self.buf[i + len];
            self.buf.set(i, v);
            i = i + 1;
        }
        self.block_write = self.block_write - len;
        self.fragment_read = self.fragment_read - len;
        proof {
            let om = old(self).model();
            let cm = compact_spec(om, len as int);
            assert(self.buf@ =~= cm.buf) by {
                assert forall|j: int| 0 <= j < total implies self.buf@[j] == cm.buf[j] by {
                    if j < total - len {
                        assert(self.buf@[j] == b0[j + len]);
                    } else {
                        assert(self.buf@[j] == b0[j]);
                    }
                }
            }
            assert(self.fragments@ =~= cm.fragments);
            assert(self.frame_size_hist@ =~= om.hist);
            assert(self.model() =~= cm);
            assert(self.pending() =~= b0.subrange(0, old(self).block_write as int).subrange(
                len as int,
                old(self).block_write as int,
            ));
            assert forall|k: int| 0 <= k < self.fragments@.len() implies sync_at(
                self.buf@,
                (#[trigger] self.fragments@[k]).pos as int,
            ) by {
                let p = f0[k].pos as int;
                assert(sync_at(b0, p));
                assert(self.buf@[p - len] == b0[p]);
                assert(self.buf@[p - len + 1] == b0[p + 1]);
            }
            assert forall|i1: int, j1: int|
                0 <= i1 < j1 < self.fragments@.len() implies (#[trigger] self.fragments@[i1]).pos
                + 2 <= (#[trigger] self.fragments@[j1]).pos by {
                assert(f0[i1].pos + 2 <= f0[j1].pos);
            }
        }
    }

    /// Discards the fragments that start before `to` and the pending bytes before it.
    fn remove_fragments(&mut self, to: usize)
        requires
            old(self).wf(),
            to <= old(self).fragment_read,
        ensures
            final(self).wf(),
            final(self).pending() == old(self).pending().subrange(
                to as int,
                old(self).block_write as int,
            ),
            final(self).frame_size_hist == old(self).frame_size_hist,
            final(self).n_frames == old(self).n_frames,
            final(self).stream_info == old(self).stream_info,
            final(self).last_seq == old(self).last_seq,
            final(self).model() == remove_fragments_spec(old(self).model(), to as int),
    {
        let ghost f0 = self.fragments@;
        let ghost dropped: int = 0;
        while self.fragments.len() > 0 && self.fragments[0].pos < to
            invariant
                self.wf(),
                self.buf == old(self).buf,
                self.block_write == old(self).block_write,
                self.fragment_read == old(self).fragment_read,
                self.frame_size_hist == old(self).frame_size_hist,
                self.n_frames == old(self).n_frames,
                self.stream_info == old(self).stream_info,
                self.last_seq == old(self).last_seq,
                to <= self.fragment_read,
                0 <= dropped <= f0.len(),
                self.fragments@ == f0.subrange(dropped, f0.len() as int),
                count_before(f0, to as int) == dropped + count_before(self.fragments@, to as int),
            decreases self.fragments@.len(),
        {
            let ghost cur = self.fragments@;
            self.fragments.pop_front();
            proof {
                assert(self.fragments@ =~= cur.drop_first());
                dropped = dropped + 1;
            }
        }
        proof {
            assert(count_before(self.fragments@, to as int) == 0);
            assert(f0.skip(dropped) =~= self.fragments@);
            let om = old(self).model();
            assert(self.model() =~= ParserModel {
                fragments: om.fragments.skip(count_before(om.fragments, to as int) as int),
                ..om
            });
        }
        proof {
            assert forall|k: int| 0 <= k < self.fragments@.len() implies to <= (
            #[trigger] self.fragments@[k]).pos by {
                if k > 0 {
                    assert(self.fragments@[0].pos + 2 <= self.fragments@[k].pos);
                }
            }
        }
        self.compact(to);
    }
}

impl PacketParser {
    /// A parser keeps its well-formedness when it drops some of its first fragments.
    proof fn lemma_wf_drop(&self, other: &Self, m: int)
        requires
            self.wf(),
            0 <= m <= self.fragments@.len(),
            other.fragments@ == self.fragments@.subrange(m, self.fragments@.len() as int),
            other.buf == self.buf,
            other.block_write == self.block_write,
            other.fragment_read == self.fragment_read,
            other.frame_size_hist == self.frame_size_hist,
        ensures
            other.wf(),
    {
        let f = self.fragments@;
        assert forall|k: int| 0 <= k < other.fragments@.len() implies {
            &&& (#[trigger] other.fragments@[k]).pos + FLAC_MAX_FRAME_HEADER_LEN
                < other.block_write
            &&& other.fragments@[k].pos < other.fragment_read
            &&& sync_at(other.buf@, other.fragments@[k].pos as int)
        } by {
            assert(other.fragments@[k] == f[k + m]);
        }
        assert forall|i: int, j: int|
            0 <= i < j < other.fragments@.len() implies (#[trigger] other.fragments@[i]).pos + 2
            <= (#[trigger] other.fragments@[j]).pos by {
            assert(other.fragments@[i] == f[i + m] && other.fragments@[j] == f[j + m]);
        }
    }

    /// One round of parsing over the buffered fragments, reading nothing: scores the fragments,
    /// drops those before the best-pick and merges fragments from it. Returns the frame found,
    /// if any.
    fn parse_round(&mut self) -> (r: Option<Vec<u8>>)
        requires
            old(self).wf(),
        ensures
            final(self).wf(),
            final(self).stream_info == old(self).stream_info,
            final(self).last_seq == old(self).last_seq,
            round_spec(old(self).model(), old(self).stream_info, old(self).last_seq) == (
                match r {
                    Some(v) => Some(v@),
                    None => None::<Seq<u8>>,
                },
                final(self).model(),
            ),
            r is None ==> {
                &&& final(self).buf == old(self).buf
                &&& final(self).block_write == old(self).block_write
                &&& final(self).fragment_read == old(self).fragment_read
                &&& final(self).frame_size_hist == old(self).frame_size_hist
                &&& final(self).n_frames == old(self).n_frames
            },
            r matches Some(frame) ==> {
                let all = old(self).pending();
                let n = frame@.len();
                let end = all.len() - final(self).pending().len();
                &&& final(self).pending().len() <= all.len()
                &&& 2 <= n <= end
                &&& final(self).pending() == all.subrange(end, all.len() as int)
                &&& frame@ == all.subrange(end - n, end)
                &&& crc16(0, frame@.subrange(0, n - 2)) == frame@[n - 2] * 256 + frame@[n - 1]
            },
    {
        let ghost s_sc = *self;
        let ghost m0 = self.model();
        let ghost si = self.stream_info;
        let (mut best, n_scored, indicies) = self.score();
        if n_scored == 0 {
            return None;
        }
        let ghost best0 = best;
        proof {
            assert(best0 == best_tier(m0, si, s_sc.last_seq));
            assert forall|t: int| 0 <= t <= n_scored implies indicies[t] == bound(m0, t) by {}
        }
        // Discard the fragments that precede the best-pick fragment.
        let mut k: usize = 0;
        while (best & 1) == 0
            invariant
                s_sc.wf(),
                m0 == s_sc.model(),
                k < n_scored,
                n_scored == n_scored_of(s_sc.fragments@),
                self.fragments@ == s_sc.fragments@.subrange(k as int, s_sc.fragments@.len() as int),
                self.buf == s_sc.buf,
                self.block_write == s_sc.block_write,
                self.fragment_read == s_sc.fragment_read,
                self.frame_size_hist == s_sc.frame_size_hist,
                self.n_frames == s_sc.n_frames,
                self.stream_info == s_sc.stream_info,
                self.last_seq == s_sc.last_seq,
                pick_from(best0, 0, n_scored as int) == pick_from(best, k as int, n_scored as int),
            ensures
                pick_from(best0, 0, n_scored as int) == (k as int, best),
            decreases n_scored - k,
        {
            if k + 1 < n_scored {
                k = k + 1;
                self.fragments.pop_front();
            } else {
                break;
            }
            best = best >> 1;
        }
        let ghost bp = best;
        // Merge fragments starting with the best-pick fragment. A frame is complete and valid
        // when the last two bytes of a fragment, a frame's potential footer, are the CRC-16 of
        // the merged fragments up to those two bytes.
        let mut frame_len: usize = 0;
        let mut crc = Crc16::new(0);
        let mut j: usize = k;
        let mut limit_hit = false;
        let ghost fs = s_sc.fragments@;
        let ghost target = merge_from(m0, si, n_scored as int, k as int, bp, k as int);
        proof {
            assert(s_sc.buf@.subrange(indicies[k as int] as int, indicies[k as int] as int)
                =~= Seq::<u8>::empty());
        }
        while j + 1 < n_scored
            invariant_except_break
                frame_len == indicies[j as int] - indicies[k as int],
                crc.value() == crc16(
                    0,
                    self.buf@.subrange(indicies[k as int] as int, indicies[j as int] as int),
                ),
                !limit_hit,
                target == merge_from(m0, si, n_scored as int, k as int, bp, j as int),
            invariant
                s_sc.wf(),
                s_sc == *old(self),
                m0 == s_sc.model(),
                si == s_sc.stream_info,
                best0 == best_tier(m0, si, s_sc.last_seq),
                n_scored == n_scored_of(fs),
                pick_from(best0, 0, n_scored as int) == (k as int, bp),
                target == merge_from(m0, si, n_scored as int, k as int, bp, k as int),
                best == bp,
                fs == s_sc.fragments@,
                k <= j < n_scored,
                n_scored <= fs.len(),
                n_scored <= 8,
                forall|t: int| 0 <= t <= n_scored ==> indicies[t] == #[trigger] bound(m0, t),
                forall|t: int| 0 <= t < n_scored ==> indicies[t] == (#[trigger] fs[t]).pos,
                self.fragments@ == fs.subrange(k as int, fs.len() as int),
                self.buf == s_sc.buf,
                self.block_write == s_sc.block_write,
                self.fragment_read == s_sc.fragment_read,
                self.frame_size_hist == s_sc.frame_size_hist,
                self.n_frames == s_sc.n_frames,
                self.stream_info == s_sc.stream_info,
                self.last_seq == s_sc.last_seq,
                limit_hit ==> target == MergeEnd::Limit,
            ensures
                target == if limit_hit {
                    MergeEnd::Limit
                } else {
                    MergeEnd::Exhausted
                },
            decreases n_scored - j,
        {
            let start = indicies[j];
            let end = indicies[j + 1];
            proof {
                assert(fs[j as int].pos + 2 <= fs[j + 1].pos);
                assert(fs[j + 1].pos < s_sc.fragment_read);
                assert(indicies[j + 1] == bound(m0, j + 1));
                assert(indicies[k as int] == bound(m0, k as int));
            }
            // The CRC-16 up to the potential footer.
            crc.process_buf_bytes(&self.buf.as_slice()[start..end - 2]);
            proof {
                let b = self.buf@;
                let ik = indicies[k as int] as int;
                lemma_crc16_append(0, b.subrange(ik, start as int), b.subrange(start as int, end - 2));
                assert(b.subrange(ik, start as int) + b.subrange(start as int, end - 2) =~= b.subrange(ik, end - 2));
            }
            let footer0 = self.buf[end - 2];
            let footer1 = self.buf[end - 1];
            frame_len = frame_len + (end - start);
            // If the CRC-16 matches then a frame was found.
            if crc.crc() == (footer0 as u16) * 256 + (footer1 as u16) {
                proof {
                    assert(frame_ends_at(m0, k as int, end as int));
                    assert(target == MergeEnd::Frame(end as int));
                }
                let frame = vstd::slice::slice_to_vec(&self.buf.as_slice()[end - frame_len..end]);
                proof {
                    s_sc.lemma_wf_drop(&*self, k as int);
                }
                // Record the frame's length.
                let slot = self.n_frames % 4;
                assert(frame@.len() <= MAX_BUFFER_ALLOC);
                self.frame_size_hist[slot] = frame.len() as u32;
                self.n_frames = self.n_frames.saturating_add(1);
                assert(forall|t: int| 0 <= t < 4 ==> 1 <= #[trigger] self.frame_size_hist[t]
                    <= self.buf@.len() - 8);
                let ghost before = self.pending();
                proof {
                    let start_k = bound(m0, k as int);
                    let recorded = ParserModel {
                        fragments: fs.skip(k as int),
                        hist: m0.hist.update(m0.n_frames % 4, (end - start_k) as u32),
                        n_frames: if m0.n_frames < usize::MAX {
                            m0.n_frames + 1
                        } else {
                            m0.n_frames
                        },
                        ..m0
                    };
                    assert(self.frame_size_hist@ =~= recorded.hist);
                    assert(self.model() =~= recorded);
                }
                self.remove_fragments(end);
                proof {
                    assert(frame@ =~= before.subrange(end - frame_len, end as int));
                    assert(frame@ =~= m0.buf.subrange(bound(m0, k as int), end as int));
                    assert(frame@.subrange(0, frame@.len() - 2) =~= s_sc.buf@.subrange(indicies[k as int] as int, end - 2));
                }
                proof {
                    let ghost rs = round_spec(m0, si, s_sc.last_seq);
                    assert(merge_from(m0, si, n_scored as int, k as int, bp, k as int) == MergeEnd::Frame(end as int));
                    assert(rs.0 == Some(frame@));
                    assert(rs.1 == self.model());
                }
                return Some(frame);
            }
            crc.process_byte(footer0);
            crc.process_byte(footer1);
            proof {
                let b = self.buf@;
                let ik = indicies[k as int] as int;
                lemma_crc16_append(0, b.subrange(ik, end - 2), seq![footer0]);
                lemma_crc16_append(0, b.subrange(ik, end - 2) + seq![footer0], seq![footer1]);
                assert(b.subrange(ik, end - 2) + seq![footer0] + seq![footer1] =~= b.subrange(ik, end as int));
                assert(!frame_ends_at(m0, k as int, end as int));
            }
            let count = j - k;
            // Choosing when to give up on a fragment is a difficult problem: the frame's CRC
            // tells when fragments combine into a complete and valid frame, but the CRC, or the
            // frame, may itself be corrupt.
            if frame_len >= FLAC_MAX_FRAME_LEN {
                // A frame may never exceed 16MB.
                limit_hit = true;
            } else if best & (2u8 << (count as u8)) != 0 {
                // The second-best fragment bounds the frame that starts at the best-pick.
                limit_hit = true;
            } else if self.stream_info.frame_byte_len.1 > 0 {
                // The stream's maximum frame length bounds the frame.
                if (frame_len as u32) > self.stream_info.frame_byte_len.1 {
                    limit_hit = true;
                }
            } else if self.n_frames >= 4 {
                // Twice the average frame length bounds the frame.
                let h = self.frame_size_hist;
                let avg_frame_size = (h[0] as u64 + h[1] as u64 + h[2] as u64 + h[3] as u64) / 4;
                proof {
                    assert(avg_frame_size == average_of(m0.hist));
                }
                if (frame_len as u32) as u64 > 2 * avg_frame_size {
                    limit_hit = true;
                }
            } else if count >= 4 {
                // Before four frames were found, four fragments bound the frame.
                limit_hit = true;
            }
            proof {
                assert(limit_hit == merge_limit(m0, si, bp, end - indicies[k as int], count as int));
            }
            if limit_hit {
                break;
            }
            j = j + 1;
        }
        proof {
            s_sc.lemma_wf_drop(&*self, k as int);
        }
        // A limit was hit: discard the current fragment, or all before the second-best.
        let ghost kept = k as int;
        if limit_hit {
            if best & 0xfe != 0 {
                best = best & !1u8;
                let ghost b1 = best;
                let ghost mut dropped: int = 0;
                assert(self.fragments@ =~= fs.subrange(kept, fs.len() as int));
                while self.fragments.len() > 0 && (best & 1) == 0
                    invariant
                        self.wf(),
                        self.buf == s_sc.buf,
                        self.block_write == s_sc.block_write,
                        self.fragment_read == s_sc.fragment_read,
                        self.frame_size_hist == s_sc.frame_size_hist,
                        self.n_frames == s_sc.n_frames,
                        self.stream_info == s_sc.stream_info,
                        self.last_seq == s_sc.last_seq,
                        0 <= kept,
                        0 <= dropped,
                        kept + dropped <= fs.len(),
                        self.fragments@ == fs.subrange(kept + dropped, fs.len() as int),
                        drop_zeros(b1, fs.len() - kept) == dropped + drop_zeros(
                            best,
                            self.fragments@.len() as int,
                        ),
                    decreases self.fragments@.len(),
                {
                    let ghost s1 = *self;
                    self.fragments.pop_front();
                    proof {
                        s1.lemma_wf_drop(&*self, 1);
                        assert(self.fragments@ =~= fs.subrange(kept + dropped + 1, fs.len() as int));
                        dropped = dropped + 1;
                    }
                    best = best >> 1;
                }
                proof {
                    assert(self.fragments@ =~= fs.skip(kept + drop_zeros(b1, fs.len() - kept)));
                    assert(self.model() =~= ParserModel {
                        fragments: fs.skip(kept + drop_zeros(b1, fs.len() - kept)),
                        ..m0
                    });
                }
            } else {
                let ghost s1 = *self;
                let popped = self.fragments.pop_front();
                proof {
                    s1.lemma_wf_drop(&*self, 1);
                    assert(self.model() =~= ParserModel { fragments: fs.skip(kept + 1), ..m0 });
                }
            }
        } else {
            proof {
                assert(self.model() =~= ParserModel { fragments: fs.skip(kept), ..m0 });
            }
        }
        None
    }

    /// Returns the next complete and valid frame, reading from `reader` as needed.
    ///
    /// Starting from the best-pick fragment, fragments are merged until the last two bytes of
    /// the merged bytes are the CRC-16 of the bytes before them. Fragments before the best-pick
    /// are discarded. A merge gives up when the frame reaches 16MB; when it reaches the
    /// second-best fragment; when it is longer than the stream's maximum frame length, or, if
    /// that is not known, than twice the average recorded frame length; or, before four frames
    /// were found, after four fragments. Then the best-pick fragment, or all fragments before the
    /// second-best, are discarded. Without a frame, more fragments are fetched.
    ///
    /// Fails only when the stream ends before the next block, or when the buffer would grow past
    /// its limit. The outcome is that of `parse_spec`, rounds of `round_spec` each followed by
    /// `fetch_fragments_spec`, on the parser and the stream as they were.
    pub fn parse(&mut self, reader: &mut BufStream) -> (r: Result<Vec<u8>, Error>)
        requires
            old(self).wf(),
        ensures
            final(self).wf(),
            final(self).info() == old(self).info(),
            final(self).last_seq_spec() == old(self).last_seq_spec(),
            final(reader).data() == old(reader).data(),
            old(reader).position() <= final(reader).position(),
            exists|fuel: nat|
                parse_spec(
                    old(self).model(),
                    old(self).info(),
                    old(self).last_seq_spec(),
                    old(reader).data(),
                    old(reader).position() as int,
                    fuel,
                ) == Some(
                    match r {
                        Ok(frame) => Ok::<(Seq<u8>, ParserModel, int), Error>(
                            (frame@, final(self).model(), final(reader).position() as int),
                        ),
                        Err(e) => Err(e),
                    },
                ),
            ({
                let all = old(self).pending() + old(reader).data().subrange(
                    old(reader).position() as int,
                    final(reader).position() as int,
                );
                match r {
                    Ok(frame) => {
                        let n = frame@.len();
                        let end = all.len() - final(self).pending().len();
                        &&& final(self).pending().len() <= all.len()
                        &&& 2 <= n <= end
                        &&& final(self).pending() == all.subrange(end, all.len() as int)
                        &&& frame@ == all.subrange(end - n, end)
                        &&& crc16(0, frame@.subrange(0, n - 2)) == frame@[n - 2] * 256 + frame@[n
                            - 1]
                    },
                    Err(e) => {
                        &&& final(self).pending() == all
                        &&& (e == eof() && final(reader).position() + old(self).block_read_len()
                            > old(reader).data().len() || e == Error::LimitError(
                            "flac: buffer would exceed maximum size",
                            MAX_BUFFER_ALLOC,
                        ))
                    },
                }
            }),
    {
        let ghost d = reader.data();
        let ghost p0 = reader.position();
        let ghost m0 = self.model();
        let ghost si = self.stream_info;
        let ghost ls = self.last_seq;
        let ghost mut steps: nat = 0;
        proof {
            reader.lemma_position_bound();
        }
        assert(old(self).pending() =~= old(self).pending() + d.subrange(p0 as int, p0 as int));
        loop
            invariant
                self.wf(),
                reader.data() == d,
                d == old(reader).data(),
                p0 == old(reader).position(),
                m0 == old(self).model(),
                si == old(self).stream_info,
                ls == old(self).last_seq,
                p0 <= reader.position() <= d.len(),
                self.pending() == old(self).pending() + d.subrange(
                    p0 as int,
                    reader.position() as int,
                ),
                self.frame_size_hist == old(self).frame_size_hist,
                self.n_frames == old(self).n_frames,
                self.stream_info == old(self).stream_info,
                self.last_seq == old(self).last_seq,
                forall|f: nat|
                    parse_spec(m0, si, ls, d, p0 as int, f + steps) == #[trigger] parse_spec(
                        self.model(),
                        si,
                        ls,
                        d,
                        reader.position() as int,
                        f,
                    ),
            decreases d.len() - reader.position(), self.block_write - self.fragment_read,
        {
            let ghost cur = self.model();
            let ghost pa = reader.position() as int;
            if let Some(frame) = self.parse_round() {
                proof {
                    assert(parse_spec(cur, si, ls, d, pa, 1) == Some(
                        Ok::<(Seq<u8>, ParserModel, int), Error>((frame@, self.model(), pa)),
                    ));
                    assert(parse_spec(m0, si, ls, d, p0 as int, 1 + steps) == parse_spec(cur, si, ls, d, pa, 1));
                    assert(parse_spec(
                        old(self).model(),
                        old(self).info(),
                        old(self).last_seq_spec(),
                        old(reader).data(),
                        old(reader).position() as int,
                        (1 + steps) as nat,
                    ) == Some(Ok::<(Seq<u8>, ParserModel, int), Error>((frame@, self.model(), reader.position() as int))));
                }
                return Ok(frame);
            }
            let ghost m1 = self.model();
            // More fragments are needed to continue.
            let fetched = self.fetch_fragments(reader);
            if let Err(e) = fetched {
                proof {
                    assert(parse_spec(cur, si, ls, d, pa, 1) == Some(
                        Err::<(Seq<u8>, ParserModel, int), Error>(e),
                    ));
                    assert(parse_spec(m0, si, ls, d, p0 as int, 1 + steps) == parse_spec(cur, si, ls, d, pa, 1));
                    assert(parse_spec(
                        old(self).model(),
                        old(self).info(),
                        old(self).last_seq_spec(),
                        old(reader).data(),
                        old(reader).position() as int,
                        (1 + steps) as nat,
                    ) == Some(Err::<(Seq<u8>, ParserModel, int), Error>(e)));
                }
                return Err(e);
            }
            proof {
                reader.lemma_position_bound();
                assert(d.subrange(p0 as int, pa) + d.subrange(pa, reader.position() as int)
                    =~= d.subrange(p0 as int, reader.position() as int));
                assert forall|f: nat|
                    parse_spec(m0, si, ls, d, p0 as int, f + (steps + 1)) == #[trigger] parse_spec(
                        self.model(),
                        si,
                        ls,
                        d,
                        reader.position() as int,
                        f,
                    ) by {
                    assert(parse_spec(m0, si, ls, d, p0 as int, (f + 1) as nat + steps) == parse_spec(cur, si, ls, d, pa, (f + 1) as nat));
                    assert((f + 1) as nat + steps == f + (steps + 1));
                }
                steps = steps + 1;
            }
        }
    }
}

} // verus!
