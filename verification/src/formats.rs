//! Container format support: packets, streams, cues and the seek index.

use vstd::prelude::*;
use crate::codecs::CodecParameters;
use crate::io::BufStream;
use crate::tags::Tag;

verus! {

/// The verbosity of log messages produced by a decoder or demuxer.
#[derive(Copy, Clone, Debug, PartialEq, Eq, Structural)]
pub enum Verbosity {
    /// No messages are logged.
    Silent,
    /// Only errors are logged.
    Error,
    /// Everything from the Error level, and warnings are logged.
    Warning,
    /// Everything from the Warning level, and info messages are logged.
    Info,
    /// Everything from the Info level, and debugging information is logged.
    Debug,
}

/// `FormatOptions` is a common set of options that all demuxers use.
#[derive(Copy, Clone, Debug, PartialEq, Eq, Structural)]
pub struct FormatOptions {
    /// Selects the logging verbosity of the demuxer.
    pub verbosity: Verbosity,
}

impl Default for FormatOptions {
    fn default() -> (r: Self)
        ensures
            r.verbosity == Verbosity::Error,
    {
        FormatOptions { verbosity: Verbosity::Error }
    }
}

/// A `Cue` is a designated point of time within a media stream.
#[derive(Clone, Debug)]
pub struct Cue {
    /// A unique index for the `Cue`.
    pub index: u32,
    /// The starting timestamp in number of frames from the start of the stream.
    pub start_ts: u64,
    /// A list of `Tag`s associated with the `Cue`.
    pub tags: Vec<Tag>,
    /// A list of `CuePoints`s that are contained within this `Cue`.
    pub points: Vec<CuePoint>,
}

/// A `CuePoint` is a point, represented as a frame offset, within a `Cue`.
#[derive(Clone, Debug)]
pub struct CuePoint {
    /// The offset of the first frame in the `CuePoint` relative to the start of the parent `Cue`.
    pub start_offset_ts: u64,
    /// A list of `Tag`s associated with the `CuePoint`.
    pub tags: Vec<Tag>,
}

/// A `SeekPoint` is a mapping between a sample or frame number to byte offset within a media
/// stream.
#[derive(Copy, Clone, Debug, PartialEq, Eq, Structural)]
pub struct SeekPoint {
    /// The frame or sample timestamp of the `SeekPoint`.
    pub frame_ts: u64,
    /// The byte offset of the `SeekPoint`s timestamp relative to a format-specific location.
    pub byte_offset: u64,
    /// The number of frames the `SeekPoint` covers.
    pub n_frames: u32,
}

impl SeekPoint {
    pub fn new(frame_ts: u64, byte_offset: u64, n_frames: u32) -> (r: Self)
        ensures
            r == (SeekPoint { frame_ts, byte_offset, n_frames }),
    {
        SeekPoint { frame_ts, byte_offset, n_frames }
    }
}

/// The result of a search of a `SeekIndex`.
#[derive(Copy, Clone, Debug, PartialEq, Eq, Structural)]
pub enum SeekSearchResult {
    /// The `SeekIndex` is empty so the desired timestamp could not be found. The entire stream
    /// should be searched for the desired timestamp.
    Stream,
    /// The desired timestamp can be found before, the `SeekPoint`.
    Upper(SeekPoint),
    /// The desired timestamp can be found at, or after, the `SeekPoint`.
    Lower(SeekPoint),
    /// The desired timestamp can be found within the range: at or after the first `SeekPoint`
    /// and before the second.
    Range(SeekPoint, SeekPoint),
}

/// The timestamps of the points never decrease.
pub open spec fn sorted_by_ts(points: Seq<SeekPoint>) -> bool {
    forall|i: int, j: int| 0 <= i <= j < points.len() ==> points[i].frame_ts <= points[j].frame_ts
}

/// Adjacent points `l` and `l + 1` bracket the timestamp: it is at or after the first and before
/// the second.
pub open spec fn brackets(points: Seq<SeekPoint>, l: int, frame_ts: u64) -> bool {
    &&& 0 <= l
    &&& l + 1 < points.len()
    &&& points[l].frame_ts <= frame_ts < points[l + 1].frame_ts
}

/// The point a binary search between points `lower` and `upper` settles on: it halves the range,
/// keeping the half whose first point is at or before the timestamp, until the two are adjacent.
pub open spec fn bracket_search(points: Seq<SeekPoint>, frame_ts: u64, lower: int, upper: int) -> int
    decreases upper - lower,
{
    if upper - lower <= 1 {
        lower
    } else {
        let mid = lower + (upper - lower) / 2;
        if frame_ts < points[mid].frame_ts {
            bracket_search(points, frame_ts, lower, mid)
        } else {
            bracket_search(points, frame_ts, mid, upper)
        }
    }
}

/// A `SeekIndex` stores `SeekPoint`s (generally a sample or frame number to byte offset) within a
/// media stream and provides methods to efficiently search for the nearest `SeekPoint`(s) given a
/// timestamp.
pub struct SeekIndex {
    points: Vec<SeekPoint>,
}

impl SeekIndex {
    /// The points of the index, in insertion order.
    pub closed spec fn view(&self) -> Seq<SeekPoint> {
        self.points@
    }

    /// Create an empty `SeekIndex`
    pub fn new() -> (r: SeekIndex)
        ensures
            r@ == Seq::<SeekPoint>::empty(),
    {
        SeekIndex { points: Vec::new() }
    }

    /// Insert a `SeekPoint` into the index.
    pub fn insert(&mut self, frame: u64, byte_offset: u64, n_frames: u32)
        ensures
            final(self)@ == old(self)@.push(SeekPoint { frame_ts: frame, byte_offset, n_frames }),
    {
        self.points.push(SeekPoint::new(frame, byte_offset, n_frames));
    }

    /// Search the index to find a bounded range of bytes, wherein the specified frame timestamp
    /// will be contained. If the index is empty, this function simply returns a result indicating
    /// the entire stream should be searched manually.
    pub fn search(&self, frame_ts: u64) -> (r: SeekSearchResult)
        ensures
            self@.len() == 0 ==> r == SeekSearchResult::Stream,
            self@.len() > 0 && frame_ts < self@[0].frame_ts ==> r == SeekSearchResult::Upper(
                self@[0],
            ),
            self@.len() > 0 && self@[0].frame_ts <= frame_ts && self@.last().frame_ts <= frame_ts
                ==> r == SeekSearchResult::Lower(self@.last()),
            self@.len() > 0 && self@[0].frame_ts <= frame_ts < self@.last().frame_ts ==> exists|
                l: int,
            |
                brackets(self@, l, frame_ts) && r == SeekSearchResult::Range(
                    #[trigger] self@[l],
                    self@[l + 1],
                ),
            self@.len() > 0 && self@[0].frame_ts <= frame_ts < self@.last().frame_ts ==> ({
                let l = bracket_search(self@, frame_ts, 0, self@.len() - 1);
                r == SeekSearchResult::Range(self@[l], self@[l + 1])
            }),
    {
        // The index must contain atleast one SeekPoint to return a useful result.
        if self.points.len() > 0 {
            let mut lower: usize = 0;
            let mut upper: usize = self.points.len() - 1;
            // If the desired timestamp is less than the first SeekPoint within the index, indicate
            // that the stream should be searched from the beginning.
            if frame_ts < self.points[lower].frame_ts {
                return SeekSearchResult::Upper(self.points[lower]);
            }
            // If the desired timestamp is greater than or equal to the last SeekPoint within the
            // index, indicate that the stream should be searched from the last SeekPoint.
             else if frame_ts >= self.points[upper].frame_ts {
                return SeekSearchResult::Lower(self.points[upper]);
            }
            // Desired timestamp is between the lower and upper indicies. Perform a binary search to
            // find a range of SeekPoints containing the desired timestamp. The binary search exits
            // when two adjacent SeekPoints are found.

            while upper - lower > 1
                invariant
                    lower < upper < self@.len(),
                    self@[lower as int].frame_ts <= frame_ts < self@[upper as int].frame_ts,
                    bracket_search(self@, frame_ts, 0, self@.len() - 1) == bracket_search(
                        self@,
                        frame_ts,
                        lower as int,
                        upper as int,
                    ),
                decreases upper - lower,
            {
                let mid = lower + (upper - lower) / 2;
                let mid_ts = self.points[mid].frame_ts;
                if frame_ts < mid_ts {
                    upper = mid;
                } else {
                    lower = mid;
                }
            }
            assert(brackets(self@, lower as int, frame_ts));
            return SeekSearchResult::Range(self.points[lower], self.points[upper]);
        }
        // The index is empty, the stream must be searched manually.
        SeekSearchResult::Stream
    }
}

/// In an index sorted by timestamp, at most one pair of adjacent points brackets a timestamp, so
/// the range a search returns is the only possible one.
pub proof fn lemma_bracket_unique(points: Seq<SeekPoint>, l1: int, l2: int, frame_ts: u64)
    requires
        sorted_by_ts(points),
        brackets(points, l1, frame_ts),
        brackets(points, l2, frame_ts),
    ensures
        l1 == l2,
{
    if l1 < l2 {
        assert(points[l1 + 1].frame_ts <= points[l2].frame_ts);
    } else if l2 < l1 {
        assert(points[l2 + 1].frame_ts <= points[l1].frame_ts);
    }
}

/// `Stream` describes a stream within a media container.
#[derive(Clone, Debug)]
pub struct Stream {
    /// The parameters defining the codec for the `Stream`.
    pub codec_params: CodecParameters,
    /// The language of the `Stream`.
    pub language: Option<String>,
}

impl Stream {
    pub fn new(codec_params: CodecParameters) -> (r: Self)
        ensures
            r.codec_params == codec_params,
            r.language is None,
    {
        Stream { codec_params, language: None }
    }
}

/// A `Packet` contains a discrete amount of encoded data for a single codec bitstream.
#[derive(Clone, Debug)]
pub struct Packet {
    id: u32,
    pts: u64,
    data: Vec<u8>,
}

impl Packet {
    /// The stream identifier.
    pub closed spec fn id_spec(&self) -> u32 {
        self.id
    }

    /// The presentation timestamp.
    pub closed spec fn pts_spec(&self) -> u64 {
        self.pts
    }

    /// The packet's data.
    pub closed spec fn bytes(&self) -> Seq<u8> {
        self.data@
    }

    /// Create a new `Packet` from a slice.
    pub fn new_from_slice(id: u32, pts: u64, buf: &[u8]) -> (r: Self)
        ensures
            r.id_spec() == id,
            r.pts_spec() == pts,
            r.bytes() == buf@,
    {
        let mut data: Vec<u8> = Vec::new();
        let mut i: usize = 0;
        while i < buf.len()
            invariant
                i <= buf@.len(),
                data@ == buf@.take(i as int),
            decreases buf@.len() - i,
        {
            data.push(buf[i]);
            proof {
                assert(buf@.take(i + 1) =~= buf@.take(i as int).push(buf@[i as int]));
            }
            i = i + 1;
        }
        assert(buf@.take(i as int) =~= buf@);
        Packet { id, pts, data }
    }

    /// Create a new `Packet` from a boxed slice.
    pub fn new_from_boxed_slice(id: u32, pts: u64, data: Box<[u8]>) -> (r: Self)
        ensures
            r.id_spec() == id,
            r.pts_spec() == pts,
            r.bytes() == data@,
    {
        Packet { id, pts, data: data.into_vec() }
    }

    /// The stream identifier of the stream this packet belongs to.
    pub fn stream_id(&self) -> (r: u32)
        ensures
            r == self.id_spec(),
    {
        self.id
    }

    /// Get the presentation timestamp of the packet.
    pub fn pts(&self) -> (r: u64)
        ensures
            r == self.pts_spec(),
    {
        self.pts
    }

    /// Get the length in time of the packet.
    pub fn tlen(&self) -> (r: u64)
        ensures
            r == 0,
    {
        0
    }

    /// Get the packet data buffer as an immutable slice.
    pub fn data(&self) -> (r: &[u8])
        ensures
            r@ == self.bytes(),
    {
        self.data.as_slice()
    }

    /// Get a `BufStream` to read the packet data buffer sequentially.
    pub fn as_buf_stream(&self) -> (r: BufStream)
        ensures
            r.data() == self.bytes(),
            r.position() == 0,
    {
        BufStream::new(self.data.as_slice())
    }
}

} // verus!
