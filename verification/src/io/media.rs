//! A buffered reader over a media source, with read-ahead and rewinding.
//!
//! The buffer has two partitions. The active one serves reads; the other holds the bytes read
//! just before them, so that the stream can be rewound into it. Together they always hold a
//! contiguous run of the bytes read from the source, ending with the last one read.

use vstd::prelude::*;
use crate::errors::{Error, IoErrorKind};
use crate::io::eof;

verus! {

/// The largest capacity of a partition of the read-ahead buffer.
pub const MAX_CAPACITY: usize = 32 * 1024;

/// The capacity of the read-ahead buffer to begin with.
pub const INIT_CAPACITY: usize = 1024;

/// A source of media bytes, read in order.
pub trait MediaSource {
    /// The bytes the source has left to give.
    spec fn rest(&self) -> Seq<u8>;

    /// Reads at most `max` bytes from the source: the next bytes it has, and none only when it
    /// has none left (or `max` is 0). A failed read consumes nothing.
    fn read_bytes(&mut self, max: usize) -> (r: Result<Vec<u8>, Error>)
        ensures
            match r {
                Ok(v) => {
                    &&& v.len() <= max
                    &&& v.len() <= old(self).rest().len()
                    &&& v@ == old(self).rest().take(v.len() as int)
                    &&& final(self).rest() == old(self).rest().skip(v.len() as int)
                    &&& v.len() == 0 && max > 0 ==> old(self).rest().len() == 0
                },
                Err(_) => final(self).rest() == old(self).rest(),
            },
    ;

    /// Returns if the source is seekable.
    fn is_seekable(&self) -> bool;

    /// Returns the length in bytes, if available.
    fn byte_len(&self) -> Option<u64>;
}

/// A media source over bytes held in memory.
pub struct MemorySource {
    data: Vec<u8>,
    at: usize,
}

impl MemorySource {
    /// What was read never passes the end of the bytes.
    #[verifier::type_invariant]
    spec fn inv(&self) -> bool {
        self.at <= self.data.len()
    }

    /// A source that yields `data`.
    pub fn new(data: Vec<u8>) -> (r: Self)
        ensures
            r.data() == data@,
            r.position() == 0,
    {
        MemorySource { data, at: 0 }
    }

    /// The bytes of the source.
    pub closed spec fn data(&self) -> Seq<u8> {
        self.data@
    }

    /// How many bytes were read.
    pub closed spec fn position(&self) -> int {
        self.at as int
    }
}

impl MediaSource for MemorySource {
    open spec fn rest(&self) -> Seq<u8> {
        self.data().skip(self.position())
    }

    fn read_bytes(&mut self, max: usize) -> (r: Result<Vec<u8>, Error>)
        ensures
            r matches Ok(v) ==> {
                let p = old(self).position();
                let n = v.len() as int;
                &&& final(self).data() == old(self).data()
                &&& p <= old(self).data().len() ==> n == if p + max <= old(self).data().len() {
                    max as int
                } else {
                    old(self).data().len() - p
                }
                &&& v@ == old(self).data().subrange(p, p + n)
                &&& final(self).position() == p + n
            },
            r is Ok,
    {
        proof {
            use_type_invariant(&*self);
        }
        let mut out: Vec<u8> = Vec::new();
        if self.at >= self.data.len() {
            assert(out@ =~= self.data@.subrange(self.at as int, self.at as int));
            assert(self.rest().skip(0) =~= self.rest());
            return Ok(out);
        }
        let n = if self.data.len() - self.at < max { self.data.len() - self.at } else { max };
        let mut i: usize = 0;
        while i < n
            invariant
                self.at + n <= self.data.len(),
                i <= n,
                out@ == self.data@.subrange(self.at as int, self.at + i),
            decreases n - i,
        {
            out.push(self.data[self.at + i]);
            i = i + 1;
            assert(out@ =~= self.data@.subrange(self.at as int, self.at + i));
        }
        let ghost r0 = self.rest();
        self.at = self.at + n;
        assert(out@ =~= r0.take(n as int));
        assert(self.rest() =~= r0.skip(n as int));
        Ok(out)
    }

    fn is_seekable(&self) -> bool {
        true
    }

    fn byte_len(&self) -> Option<u64> {
        Some(self.data.len() as u64)
    }
}

/// A partition of the read-ahead buffer: the position in the source of its first byte, how many
/// bytes it holds, and how many it was meant to hold.
pub struct Partition {
    base_pos: u64,
    len: usize,
    capacity: usize,
}

/// Partition `i` of the buffer `b` holds `p.len` bytes of `h`, from position `p.base_pos`.
pub closed spec fn part_holds(b: Seq<u8>, h: Seq<u8>, i: int, p: Partition) -> bool {
    &&& p.len <= MAX_CAPACITY
    &&& INIT_CAPACITY <= p.capacity <= MAX_CAPACITY
    &&& p.base_pos + p.len <= h.len()
    &&& b.subrange(i * MAX_CAPACITY, i * MAX_CAPACITY + p.len) == h.subrange(
        p.base_pos as int,
        p.base_pos + p.len,
    )
}

/// The common reader of media bytes: reads ahead from its source in growing blocks, and can be
/// rewound by up to the last block read.
pub struct MediaSourceStream<S: MediaSource> {
    inner: S,
    buf: Vec<u8>,
    pos: usize,
    end_pos: usize,
    cur_capacity: usize,
    part_idx: u32,
    part: [Partition; 2],
    read: Ghost<Seq<u8>>,
    failed: Ghost<bool>,
}

impl<S: MediaSource> MediaSourceStream<S> {
    /// The bytes read from the source so far.
    pub closed spec fn history(&self) -> Seq<u8> {
        self.read@
    }

    /// The position of the stream in the source: how many bytes were handed out, less those
    /// rewound.
    pub closed spec fn position(&self) -> int {
        let c = self.part_idx as int;
        self.part[c].base_pos + self.pos - c * MAX_CAPACITY
    }

    /// The earliest position the stream can be rewound to.
    pub closed spec fn back_start(&self) -> int {
        if self.part[0].base_pos <= self.part[1].base_pos {
            self.part[0].base_pos as int
        } else {
            self.part[1].base_pos as int
        }
    }

    /// The bytes of the source from its start: those read from it so far, then those it has
    /// left.
    pub closed spec fn content(&self) -> Seq<u8> {
        self.read@ + self.inner.rest()
    }

    /// Whether the last read from the source failed.
    pub closed spec fn source_failed(&self) -> bool {
        self.failed@
    }

    /// The position in the source of the latest block read.
    pub closed spec fn front_start(&self) -> int {
        if self.part[0].base_pos <= self.part[1].base_pos {
            self.part[1].base_pos as int
        } else {
            self.part[0].base_pos as int
        }
    }

    /// Both partitions hold bytes read from the source, one right after the other, the later
    /// ending with the last byte read; reads are served from the active one.
    pub closed spec fn wf(&self) -> bool {
        let c = self.part_idx as int;
        let a = 1 - c;
        let pc = self.part[c];
        let pa = self.part[a];
        let h = self.read@;
        &&& self.buf@.len() == 2 * MAX_CAPACITY
        &&& self.part_idx < 2
        &&& INIT_CAPACITY <= self.cur_capacity <= MAX_CAPACITY
        &&& part_holds(self.buf@, h, 0, self.part[0])
        &&& part_holds(self.buf@, h, 1, self.part[1])
        &&& c * MAX_CAPACITY <= self.pos <= self.end_pos
        &&& self.end_pos == c * MAX_CAPACITY + pc.len
        &&& h.len() <= u64::MAX
        &&& {
            ||| pa.base_pos + pa.len == pc.base_pos && pc.base_pos + pc.len == h.len() && (
            INIT_CAPACITY <= pa.len || pc.base_pos == 0) && (pc.len == 0 && pc.base_pos > 0
                ==> self.inner.rest().len() == 0)
            ||| pc.base_pos + pc.len == pa.base_pos && pa.base_pos + pa.len == h.len()
                && INIT_CAPACITY <= pc.len && (pa.len == 0 ==> self.inner.rest().len() == 0)
        }
    }

    /// A stream over `source`, which has read nothing yet.
    pub fn new(source: S) -> (r: Self)
        ensures
            r.wf(),
            r.history() == Seq::<u8>::empty(),
            r.position() == 0,
            r.back_start() == 0,
            r.front_start() == 0,
            r.content() == source.rest(),
            !r.source_failed(),
    {
        let r = MediaSourceStream {
            inner: source,
            cur_capacity: INIT_CAPACITY,
            buf: vec![0u8; 2 * MAX_CAPACITY],
            pos: 0,
            end_pos: 0,
            part_idx: 0,
            part: [
                Partition { base_pos: 0, len: 0, capacity: INIT_CAPACITY },
                Partition { base_pos: 0, len: 0, capacity: INIT_CAPACITY },
            ],
            read: Ghost(Seq::empty()),
            failed: Ghost(false),
        };
        assert(r.content() =~= source.rest());
        assert(r.buf@.len() == 2 * MAX_CAPACITY);
        assert(r.buf@.subrange(0, 0) =~= r.read@.subrange(0, 0));
        assert(r.buf@.subrange(MAX_CAPACITY as int, MAX_CAPACITY as int) =~= r.read@.subrange(0, 0));
        assert(part_holds(r.buf@, r.read@, 0, r.part[0]));
        assert(part_holds(r.buf@, r.read@, 1, r.part[1]));
        r
    }

    /// The index of the active partition.
    fn active(&self) -> (r: usize)
        requires
            self.wf(),
        ensures
            r == self.part_idx,
    {
        let i = self.part_idx;
        assert(i < 2 ==> (i as usize) & 1 == i as usize) by (bit_vector);
        i as usize & 0x1
    }

    /// The position in the source after the last byte read.
    fn inner_pos(&self) -> (r: u64)
        requires
            self.wf(),
        ensures
            r == self.history().len(),
    {
        let e0 = self.part[0].base_pos + self.part[0].len as u64;
        let e1 = self.part[1].base_pos + self.part[1].len as u64;
        if e0 < e1 {
            e1
        } else {
            e0
        }
    }

    /// Get the current position of the stream in the underlying source.
    pub fn pos(&self) -> (r: u64)
        requires
            self.wf(),
        ensures
            r == self.position(),
    {
        let idx = self.active();
        self.part[idx].base_pos + self.part[idx].len as u64 - (self.end_pos as u64 - self.pos as u64)
    }

    /// Get the number of bytes buffered but not yet read.
    pub fn buffered_bytes(&self) -> (r: u64)
        requires
            self.wf(),
        ensures
            r == self.history().len() - self.position(),
    {
        self.inner_pos() - self.pos()
    }

    /// Get the maximum number of rewindable bytes.
    pub fn rewindable_bytes(&self) -> (r: u64)
        requires
            self.wf(),
        ensures
            r == self.position() - self.back_start(),
    {
        let b0 = self.part[0].base_pos;
        let b1 = self.part[1].base_pos;
        self.pos() - if b0 <= b1 { b0 } else { b1 }
    }

    /// Rewinds the stream by `rewind_len` bytes when that many are rewindable, and returns the
    /// number of bytes rewound: `rewind_len`, or 0.
    pub fn rewind(&mut self, rewind_len: usize) -> (r: usize)
        requires
            old(self).wf(),
            rewind_len <= old(self).position(),
        ensures
            final(self).wf(),
            final(self).history() == old(self).history(),
            final(self).back_start() == old(self).back_start(),
            final(self).content() == old(self).content(),
            final(self).front_start() == old(self).front_start(),
            final(self).source_failed() == old(self).source_failed(),
            r == if rewind_len <= old(self).position() - old(self).back_start() {
                rewind_len
            } else {
                0
            },
            final(self).position() == old(self).position() - r,
    {
        let cur_idx = self.active();
        let alt_idx = cur_idx ^ 0x1;
        assert(cur_idx < 2 ==> cur_idx ^ 1 == 1 - cur_idx) by (bit_vector);
        let target_pos = self.pos() - rewind_len as u64;
        if target_pos >= self.part[cur_idx].base_pos {
            // The target position is within the active partition.
            self.pos = self.pos - rewind_len;
        } else if target_pos >= self.part[alt_idx].base_pos {
            // The target position is within the other partition: it becomes the active one.
            self.part_idx = self.part_idx ^ 0x1;
            let p = self.part_idx;
            assert(p < 2 ==> p ^ 1 == 1 - p) by (bit_vector);
            self.pos = (alt_idx * MAX_CAPACITY) + (target_pos - self.part[alt_idx].base_pos) as usize;
            self.end_pos = alt_idx * MAX_CAPACITY + self.part[alt_idx].len;
        } else {
            // The target position is outside the stream's buffer entirely.
            return 0;
        }
        rewind_len
    }
}

/// Copies `src` into `buf` from index `at`.
fn copy_into(buf: &mut Vec<u8>, at: usize, src: &Vec<u8>)
    requires
        at + src.len() <= old(buf).len(),
    ensures
        final(buf)@ == old(buf)@.subrange(0, at as int) + src@ + old(buf)@.subrange(
            at + src.len(),
            old(buf)@.len() as int,
        ),
{
    let ghost b0 = buf@;
    let mut i: usize = 0;
    while i < src.len()
        invariant
            at + src.len() <= b0.len(),
            at + src.len() <= buf.len(),
            buf@.len() == b0.len(),
            i <= src.len(),
            forall|k: int| 0 <= k < at ==> buf@[k] == b0[k],
            forall|k: int| 0 <= k < i ==> buf@[at + k] == src@[k],
            forall|k: int| at + i <= k < b0.len() ==> buf@[k] == b0[k],
        decreases src.len() - i,
    {
        buf.set(at + i, src[i]);
        i = i + 1;
    }
    assert(buf@ =~= b0.subrange(0, at as int) + src@ + b0.subrange(at + src.len(), b0.len() as int));
}

/// A write of `src` at `at` into the buffer `b0`, giving `b1`, keeps partition `i` when it lies
/// in the other half of the buffer, and the bytes read only grow.
proof fn lemma_write_keeps(
    b0: Seq<u8>,
    b1: Seq<u8>,
    h0: Seq<u8>,
    h1: Seq<u8>,
    i: int,
    p: Partition,
    at: int,
    src: Seq<u8>,
)
    requires
        b0.len() == 2 * MAX_CAPACITY,
        0 <= i < 2,
        part_holds(b0, h0, i, p),
        h0.is_prefix_of(h1),
        0 <= at,
        at + src.len() <= b0.len(),
        b1 == b0.subrange(0, at) + src + b0.subrange(at + src.len(), b0.len() as int),
        (1 - i) * MAX_CAPACITY <= at,
        at + src.len() <= (2 - i) * MAX_CAPACITY,
    ensures
        part_holds(b1, h1, i, p),
{
    let lo = i * MAX_CAPACITY;
    assert(lo == 0 || lo == MAX_CAPACITY) by (nonlinear_arith)
        requires
            0 <= i < 2,
            lo == i * MAX_CAPACITY,
    ;
    assert((1 - i) * MAX_CAPACITY == MAX_CAPACITY - lo && (2 - i) * MAX_CAPACITY == 2
        * MAX_CAPACITY - lo) by (nonlinear_arith)
        requires
            lo == i * MAX_CAPACITY,
    ;
    assert forall|k: int| 0 <= k < p.len implies #[trigger] b1.subrange(lo, lo + p.len)[k] == h1.subrange(
        p.base_pos as int,
        p.base_pos + p.len,
    )[k] by {
        assert(b0.subrange(lo, lo + p.len)[k] == h0.subrange(p.base_pos as int, p.base_pos + p.len)[k]);
        if lo == 0 {
            assert(lo + k < at);
            assert(b1[lo + k] == b0.subrange(0, at)[lo + k]);
        } else {
            assert(lo + k >= at + src.len());
            assert(b1[lo + k] == b0.subrange(at + src.len(), b0.len() as int)[lo + k - at - src.len()]);
        }
    }
    assert(b1.subrange(lo, lo + p.len) =~= h1.subrange(p.base_pos as int, p.base_pos + p.len));
}

/// Writing the bytes `src` just read right after partition `i`, which ends with the last byte
/// read before them, extends the partition with them.
proof fn lemma_write_extends(
    b0: Seq<u8>,
    b1: Seq<u8>,
    h0: Seq<u8>,
    src: Seq<u8>,
    i: int,
    p0: Partition,
    p1: Partition,
)
    requires
        b0.len() == 2 * MAX_CAPACITY,
        0 <= i < 2,
        p0.len <= MAX_CAPACITY,
        p0.base_pos + p0.len == h0.len(),
        b0.subrange(i * MAX_CAPACITY, i * MAX_CAPACITY + p0.len) == h0.subrange(
            p0.base_pos as int,
            p0.base_pos + p0.len,
        ),
        p0.len + src.len() <= MAX_CAPACITY,
        p1.base_pos == p0.base_pos,
        p1.len == p0.len + src.len(),
        INIT_CAPACITY <= p1.capacity <= MAX_CAPACITY,
        b1 == b0.subrange(0, i * MAX_CAPACITY + p0.len) + src + b0.subrange(
            i * MAX_CAPACITY + p0.len + src.len(),
            b0.len() as int,
        ),
    ensures
        part_holds(b1, h0 + src, i, p1),
{
    let lo = i * MAX_CAPACITY;
    assert(lo == 0 || lo == MAX_CAPACITY) by (nonlinear_arith)
        requires
            0 <= i < 2,
            lo == i * MAX_CAPACITY,
    ;
    let h1 = h0 + src;
    assert forall|k: int| 0 <= k < p1.len implies #[trigger] b1.subrange(lo, lo + p1.len)[k] == h1.subrange(
        p1.base_pos as int,
        p1.base_pos + p1.len,
    )[k] by {
        if k < p0.len {
            assert(b0.subrange(lo, lo + p0.len)[k] == h0.subrange(p0.base_pos as int, p0.base_pos + p0.len)[k]);
            assert(b1[lo + k] == b0.subrange(0, lo + p0.len)[lo + k]);
            assert(h1[p0.base_pos + k] == h0[p0.base_pos + k]);
        } else {
            assert(b1[lo + k] == src[k - p0.len]);
            assert(h1[p0.base_pos + k] == src[k - p0.len]);
        }
    }
    assert(b1.subrange(lo, lo + p1.len) =~= h1.subrange(p1.base_pos as int, p1.base_pos + p1.len));
}

impl<S: MediaSource> MediaSourceStream<S> {
    /// When every buffered byte was read, makes more available: moves to the later partition
    /// after a rewind, or fills the active partition up to its capacity, or reads a block into
    /// the other partition, growing the block size up to its largest. Each read from the source
    /// asks for at least one byte, and what it gives is appended to the bytes read.
    #[verifier::rlimit(50)]
    #[verifier::spinoff_prover]
    fn fetch_buffer(&mut self) -> (r: Result<(), Error>)
        requires
            old(self).wf(),
            old(self).history().len() + MAX_CAPACITY <= u64::MAX,
        ensures
            final(self).wf(),
            final(self).content() == old(self).content(),
            old(self).history().is_prefix_of(final(self).history()),
            final(self).position() == old(self).position(),
            old(self).position() >= old(self).front_start() ==> final(self).position()
                >= final(self).front_start(),
            old(self).position() < old(self).history().len() ==> r is Ok && final(self).history()
                == old(self).history() && final(self).pos < final(self).end_pos,
            old(self).pos < old(self).end_pos ==> *final(self) == *old(self),
            r is Ok && old(self).position() < old(self).content().len() ==> final(self).pos
                < final(self).end_pos,
            r is Err ==> final(self).source_failed() && final(self).history() == old(self).history(),
    {
        if self.pos >= self.end_pos {
            let cur_idx = self.active();
            let alt_idx = cur_idx ^ 0x1;
            assert(cur_idx < 2 ==> cur_idx ^ 1 == 1 - cur_idx) by (bit_vector);
            if self.part[cur_idx].base_pos < self.part[alt_idx].base_pos {
                // The stream was rewound: move on to the later partition.
                self.pos = alt_idx * MAX_CAPACITY;
                self.end_pos = self.pos + self.part[alt_idx].len;
                self.part_idx = self.part_idx ^ 0x1;
                let p = self.part_idx;
                assert(p < 2 ==> p ^ 1 == 1 - p) by (bit_vector);
            } else if self.part[cur_idx].len < self.part[cur_idx].capacity {
                // Fill the active partition up to its capacity.
                let amount = self.part[cur_idx].capacity - self.part[cur_idx].len;
                let ghost rest0 = self.inner.rest();
                let bytes = match self.inner.read_bytes(amount) {
                    Ok(bytes) => bytes,
                    Err(e) => {
                        self.failed = Ghost(true);
                        return Err(e);
                    },
                };
                let ghost s0 = *self;
                copy_into(&mut self.buf, self.pos, &bytes);
                self.read = Ghost(s0.read@ + bytes@);
                self.failed = Ghost(false);
                self.part[cur_idx].len = self.part[cur_idx].len + bytes.len();
                self.end_pos = self.end_pos + bytes.len();
                proof {
                    let ci = cur_idx as int;
                    let ai = alt_idx as int;
                    lemma_write_keeps(s0.buf@, self.buf@, s0.read@, self.read@, ai, self.part[ai],
                        s0.pos as int, bytes@);
                    lemma_write_extends(s0.buf@, self.buf@, s0.read@, bytes@, ci, s0.part[ci],
                        self.part[ci]);
                    assert(rest0 =~= bytes@ + self.inner.rest());
                    assert(s0.read@ + rest0 =~= self.read@ + self.inner.rest());
                }
            } else {
                // Grow the block size, and read a block into the other partition.
                let capacity = if self.cur_capacity * 2 < MAX_CAPACITY {
                    self.cur_capacity * 2
                } else {
                    MAX_CAPACITY
                };
                let pos = alt_idx * MAX_CAPACITY;
                let ghost rest0 = self.inner.rest();
                let bytes = match self.inner.read_bytes(capacity) {
                    Ok(bytes) => bytes,
                    Err(e) => {
                        self.failed = Ghost(true);
                        return Err(e);
                    },
                };
                let ghost s0 = *self;
                copy_into(&mut self.buf, pos, &bytes);
                self.read = Ghost(s0.read@ + bytes@);
                self.failed = Ghost(false);
                self.part[alt_idx].base_pos = self.part[cur_idx].base_pos
                    + self.part[cur_idx].len as u64;
                self.part[alt_idx].capacity = self.cur_capacity;
                self.part[alt_idx].len = bytes.len();
                self.part_idx = self.part_idx ^ 0x1;
                let p = self.part_idx;
                assert(p < 2 ==> p ^ 1 == 1 - p) by (bit_vector);
                self.cur_capacity = capacity;
                self.pos = pos;
                self.end_pos = pos + bytes.len();
                proof {
                    let ci = cur_idx as int;
                    let ai = alt_idx as int;
                    lemma_write_keeps(s0.buf@, self.buf@, s0.read@, self.read@, ci, self.part[ci],
                        pos as int, bytes@);
                    let fresh = Partition { base_pos: s0.read@.len() as u64, len: 0, capacity: 0 };
                    assert(s0.buf@.subrange(ai * MAX_CAPACITY, ai * MAX_CAPACITY) =~= Seq::<u8>::empty());
                    assert(s0.read@.subrange(s0.read@.len() as int, s0.read@.len() as int) =~= Seq::<u8>::empty());
                    lemma_write_extends(s0.buf@, self.buf@, s0.read@, bytes@, ai, fresh,
                        self.part[ai]);
                    assert(rest0 =~= bytes@ + self.inner.rest());
                    assert(s0.read@ + rest0 =~= self.read@ + self.inner.rest());
                }
            }
        }
        Ok(())
    }

    /// The stream never passes the bytes read from the source, which never pass the source's
    /// content; it lags them by at most two partitions, and can be rewound to the earliest byte
    /// still buffered.
    pub proof fn lemma_position_bounds(&self)
        requires
            self.wf(),
        ensures
            self.back_start() <= self.position() <= self.history().len() <= self.content().len(),
            self.history().len() <= self.position() + 2 * MAX_CAPACITY,
            self.back_start() <= self.front_start(),
    {
    }

    /// While the stream is within the latest block read, as it is unless rewound past that
    /// block's start, it can be rewound by 1kB once 1kB was read, and by all that was read before
    /// that.
    pub proof fn lemma_rewindable_in_latest_block(&self)
        requires
            self.wf(),
            self.position() >= self.front_start(),
        ensures
            self.position() - self.back_start() >= if self.position() < INIT_CAPACITY {
                self.position()
            } else {
                INIT_CAPACITY as int
            },
    {
    }

    /// Makes at least one more byte available, or fails at the end of the source, or when the
    /// source fails.
    fn fetch_buffer_or_eof(&mut self) -> (r: Result<(), Error>)
        requires
            old(self).wf(),
            old(self).history().len() + MAX_CAPACITY <= u64::MAX,
        ensures
            final(self).wf(),
            final(self).content() == old(self).content(),
            old(self).history().is_prefix_of(final(self).history()),
            final(self).position() == old(self).position(),
            old(self).position() >= old(self).front_start() ==> final(self).position()
                >= final(self).front_start(),
            r is Ok ==> final(self).pos < final(self).end_pos,
            old(self).position() < old(self).history().len() ==> r is Ok && final(self).history()
                == old(self).history(),
            r matches Err(e) ==> final(self).history() == old(self).history() && (final(self).source_failed() || e == eof() && old(self).position() == old(self).content().len()),
    {
        self.fetch_buffer()?;
        // No byte is available at the end of the source.
        if self.pos >= self.end_pos {
            return Err(Error::IoError(IoErrorKind::UnexpectedEof));
        }
        Ok(())
    }

    /// Reads a single byte from the stream and returns it or an error: the byte of the source
    /// at the stream's position. A byte already read from the source, as after a rewind, comes
    /// from the buffer. A failure leaves the position as it was; it comes from the source, or
    /// at the end of its content.
    pub fn read_byte(&mut self) -> (r: Result<u8, Error>)
        requires
            old(self).wf(),
            old(self).position() + 3 * MAX_CAPACITY <= u64::MAX,
        ensures
            final(self).wf(),
            final(self).content() == old(self).content(),
            old(self).history().is_prefix_of(final(self).history()),
            old(self).position() >= old(self).front_start() ==> final(self).position()
                >= final(self).front_start(),
            match r {
                Ok(b) => final(self).position() == old(self).position() + 1 && b == old(self).content()[old(self).position()],
                Err(e) => {
                    &&& final(self).position() == old(self).position()
                    &&& old(self).position() == old(self).history().len()
                    &&& final(self).source_failed() || e == eof() && old(self).position() == old(self).content().len()
                },
            },
            old(self).position() < old(self).history().len() ==> r == Ok::<u8, Error>(
                old(self).history()[old(self).position()],
            ) && final(self).history() == old(self).history(),
            old(self).position() == old(self).content().len() ==> r is Err,
    {
        proof {
            self.lemma_position_bounds();
        }
        if self.pos >= self.end_pos {
            self.fetch_buffer_or_eof()?;
        }
        proof {
            let c = self.part_idx as int;
            let pc = self.part[c];
            let lo = c * MAX_CAPACITY;
            let k = self.pos - lo;
            assert(self.buf@.subrange(lo, lo + pc.len)[k] == self.read@.subrange(
                pc.base_pos as int,
                pc.base_pos + pc.len,
            )[k]);
        }
        let byte = self.buf[self.pos];
        self.pos = self.pos + 1;
        Ok(byte)
    }

    /// Reads exactly `n` bytes: those of the source from the stream's position. Fails, having
    /// consumed fewer, when the source fails or its content ends first.
    pub fn read_buf_bytes(&mut self, n: usize) -> (r: Result<Vec<u8>, Error>)
        requires
            old(self).wf(),
            old(self).position() + n + 3 * MAX_CAPACITY <= u64::MAX,
        ensures
            final(self).wf(),
            final(self).content() == old(self).content(),
            old(self).history().is_prefix_of(final(self).history()),
            old(self).position() >= old(self).front_start() ==> final(self).position()
                >= final(self).front_start(),
            match r {
                Ok(v) => final(self).position() == old(self).position() + n && v@ == old(self).content().subrange(old(self).position(), old(self).position() + n),
                Err(e) => {
                    &&& old(self).position() <= final(self).position() < old(self).position() + n
                    &&& final(self).source_failed() || e == eof() && old(self).position() + n
                        > old(self).content().len()
                },
            },
            old(self).position() + n <= old(self).history().len() ==> r is Ok
                && final(self).history() == old(self).history(),
            old(self).position() + n > old(self).content().len() ==> r is Err,
    {
        let ghost p0 = self.position();
        let ghost h0 = self.history();
        let ghost c0 = self.content();
        let ghost in_front = self.position() >= self.front_start();
        proof {
            self.lemma_position_bounds();
            assert(c0.subrange(p0, p0) =~= Seq::<u8>::empty());
        }
        let mut out: Vec<u8> = Vec::new();
        let mut i: usize = 0;
        while i < n
            invariant
                self.wf(),
                h0.is_prefix_of(self.history()),
                h0 == old(self).history(),
                c0 == old(self).content(),
                self.content() == c0,
                p0 == old(self).position(),
                in_front == (old(self).position() >= old(self).front_start()),
                in_front ==> self.position() >= self.front_start(),
                i <= n,
                0 <= p0,
                self.position() == p0 + i,
                p0 + n + 3 * MAX_CAPACITY <= u64::MAX,
                p0 + i <= c0.len(),
                out@ == c0.subrange(p0, p0 + i),
                p0 + n <= h0.len() ==> self.history() == h0,
            decreases n - i,
        {
            let b = self.read_byte()?;
            proof {
                self.lemma_position_bounds();
            }
            out.push(b);
            i = i + 1;
            assert(out@ =~= c0.subrange(p0, p0 + i));
        }
        Ok(out)
    }

    /// Reads two bytes, in read order.
    pub fn read_double_bytes(&mut self) -> (r: Result<[u8; 2], Error>)
        requires
            old(self).wf(),
            old(self).position() + 2 + 3 * MAX_CAPACITY <= u64::MAX,
        ensures
            final(self).wf(),
            final(self).content() == old(self).content(),
            old(self).position() >= old(self).front_start() ==> final(self).position()
                >= final(self).front_start(),
            match r {
                Ok(v) => final(self).position() == old(self).position() + 2 && v@ == old(self).content().subrange(old(self).position(), old(self).position() + 2),
                Err(e) => {
                    &&& old(self).position() <= final(self).position() < old(self).position() + 2
                    &&& final(self).source_failed() || e == eof() && old(self).position() + 2
                        > old(self).content().len()
                },
            },
            old(self).position() + 2 > old(self).content().len() ==> r is Err,
    {
        let v = self.read_buf_bytes(2)?;
        let a = [v[0], v[1]];
        assert(a@ =~= v@);
        Ok(a)
    }

    /// Reads three bytes, in read order.
    pub fn read_triple_bytes(&mut self) -> (r: Result<[u8; 3], Error>)
        requires
            old(self).wf(),
            old(self).position() + 3 + 3 * MAX_CAPACITY <= u64::MAX,
        ensures
            final(self).wf(),
            final(self).content() == old(self).content(),
            old(self).position() >= old(self).front_start() ==> final(self).position()
                >= final(self).front_start(),
            match r {
                Ok(v) => final(self).position() == old(self).position() + 3 && v@ == old(self).content().subrange(old(self).position(), old(self).position() + 3),
                Err(e) => {
                    &&& old(self).position() <= final(self).position() < old(self).position() + 3
                    &&& final(self).source_failed() || e == eof() && old(self).position() + 3
                        > old(self).content().len()
                },
            },
            old(self).position() + 3 > old(self).content().len() ==> r is Err,
    {
        let v = self.read_buf_bytes(3)?;
        let a = [v[0], v[1], v[2]];
        assert(a@ =~= v@);
        Ok(a)
    }

    /// Reads four bytes, in read order.
    pub fn read_quad_bytes(&mut self) -> (r: Result<[u8; 4], Error>)
        requires
            old(self).wf(),
            old(self).position() + 4 + 3 * MAX_CAPACITY <= u64::MAX,
        ensures
            final(self).wf(),
            final(self).content() == old(self).content(),
            old(self).position() >= old(self).front_start() ==> final(self).position()
                >= final(self).front_start(),
            match r {
                Ok(v) => final(self).position() == old(self).position() + 4 && v@ == old(self).content().subrange(old(self).position(), old(self).position() + 4),
                Err(e) => {
                    &&& old(self).position() <= final(self).position() < old(self).position() + 4
                    &&& final(self).source_failed() || e == eof() && old(self).position() + 4
                        > old(self).content().len()
                },
            },
            old(self).position() + 4 > old(self).content().len() ==> r is Err,
    {
        let v = self.read_buf_bytes(4)?;
        let a = [v[0], v[1], v[2], v[3]];
        assert(a@ =~= v@);
        Ok(a)
    }

    /// Skips `count` bytes. The content of the source must hold them: past its end the stream
    /// would wait for more forever.
    pub fn ignore_bytes(&mut self, count: u64) -> (r: Result<(), Error>)
        requires
            old(self).wf(),
            old(self).position() + count <= old(self).content().len(),
            old(self).position() + count + 3 * MAX_CAPACITY <= u64::MAX,
        ensures
            final(self).wf(),
            final(self).content() == old(self).content(),
            old(self).position() >= old(self).front_start() ==> final(self).position()
                >= final(self).front_start(),
            r is Ok ==> final(self).position() == old(self).position() + count,
            r is Err ==> final(self).source_failed(),
            old(self).position() + count <= old(self).history().len() ==> r is Ok,
    {
        let ghost p0 = self.position();
        let ghost c0 = self.content();
        let ghost h0 = self.history();
        let ghost in_front = self.position() >= self.front_start();
        let ghost total = count as int;
        let mut left = count;
        while left > 0
            invariant
                self.wf(),
                self.content() == c0,
                c0 == old(self).content(),
                h0 == old(self).history(),
                h0.is_prefix_of(self.history()),
                p0 == old(self).position(),
                total == count,
                in_front == (old(self).position() >= old(self).front_start()),
                in_front ==> self.position() >= self.front_start(),
                p0 <= self.position(),
                self.position() + left == p0 + total,
                self.position() + left <= c0.len(),
                self.position() + left + 3 * MAX_CAPACITY <= u64::MAX,
                p0 + total <= h0.len() ==> self.history() == h0,
            decreases left,
        {
            proof {
                self.lemma_position_bounds();
            }
            self.fetch_buffer()?;
            let avail = (self.end_pos - self.pos) as u64;
            let discard = if avail < left { avail } else { left };
            self.pos = self.pos + discard as usize;
            left = left - discard;
        }
        Ok(())
    }
}

} // verus!
