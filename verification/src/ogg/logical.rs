//! The packets of one logical Ogg stream, assembled from the bodies of its pages.

use vstd::prelude::*;
use std::collections::VecDeque;
use crate::errors::Error;
use crate::io::{BufStream, eof};
use crate::ogg::page::PageHeader;

verus! {

/// The packet lengths that the segment table `segs` completes, the first of them adding to
/// `carry` bytes of a packet begun before: a segment shorter than 255 bytes ends a packet.
pub open spec fn lacing_packets(segs: Seq<u8>, carry: int) -> Seq<int>
    decreases segs.len(),
{
    if segs.len() == 0 {
        seq![]
    } else if segs[0] < 255 {
        seq![carry + segs[0]] + lacing_packets(segs.drop_first(), 0)
    } else {
        lacing_packets(segs.drop_first(), carry + 255)
    }
}

/// The total of the lengths `s`.
pub open spec fn total_len(s: Seq<int>) -> int
    decreases s.len(),
{
    if s.len() == 0 {
        0
    } else {
        s[0] + total_len(s.drop_first())
    }
}

/// The total of the segment lengths `s`.
pub open spec fn segments_len(s: Seq<u8>) -> int
    decreases s.len(),
{
    if s.len() == 0 {
        0
    } else {
        s[0] + segments_len(s.drop_first())
    }
}

/// The packets that a segment table completes hold no more than the bytes carried into it and
/// those of its segments, and none is negative where the carry is not.
proof fn lemma_lacing_total(segs: Seq<u8>, carry: int)
    requires
        carry >= 0,
    ensures
        total_len(lacing_packets(segs, carry)) <= carry + segments_len(segs),
        forall|i: int| 0 <= i < lacing_packets(segs, carry).len() ==> 0 <= #[trigger] lacing_packets(
            segs,
            carry,
        )[i],
        forall|i: int| 0 <= i < lacing_packets(segs, carry).len() ==> #[trigger] lacing_packets(
            segs,
            carry,
        )[i] <= carry + segments_len(segs),
    decreases segs.len(),
{
    if segs.len() > 0 {
        if segs[0] < 255 {
            lemma_lacing_total(segs.drop_first(), 0);
            let rest = lacing_packets(segs.drop_first(), 0);
            assert((seq![carry + segs[0]] + rest).drop_first() =~= rest);
            assert forall|i: int| 0 <= i < lacing_packets(segs, carry).len() implies #[trigger] lacing_packets(
                segs,
                carry,
            )[i] <= carry + segments_len(segs) by {
                if i > 0 {
                    assert(lacing_packets(segs, carry)[i] == rest[i - 1]);
                    lemma_segments_nonneg(segs.drop_first());
                }
            }
        } else {
            lemma_lacing_total(segs.drop_first(), carry + 255);
        }
    }
}

/// A total of segment lengths is never negative.
pub proof fn lemma_segments_nonneg(s: Seq<u8>)
    ensures
        segments_len(s) >= 0,
    decreases s.len(),
{
    if s.len() > 0 {
        lemma_segments_nonneg(s.drop_first());
    }
}

/// A total of lengths that are not negative is at least its first.
proof fn lemma_total_first(s: Seq<int>)
    requires
        s.len() > 0,
        forall|i: int| 0 <= i < s.len() ==> 0 <= #[trigger] s[i],
    ensures
        total_len(s) >= s[0],
        total_len(s) == s[0] + total_len(s.drop_first()),
    decreases s.len(),
{
    lemma_total_nonneg(s.drop_first());
}

/// A total of lengths that are not negative is not negative.
proof fn lemma_total_nonneg(s: Seq<int>)
    requires
        forall|i: int| 0 <= i < s.len() ==> 0 <= #[trigger] s[i],
    ensures
        total_len(s) >= 0,
    decreases s.len(),
{
    if s.len() > 0 {
        lemma_total_nonneg(s.drop_first());
    }
}

/// Appending lengths adds their total.
proof fn lemma_total_append(a: Seq<int>, b: Seq<int>)
    ensures
        total_len(a + b) == total_len(a) + total_len(b),
    decreases a.len(),
{
    if a.len() > 0 {
        assert((a + b).drop_first() =~= a.drop_first() + b);
        lemma_total_append(a.drop_first(), b);
    }
}

/// Splitting a segment table after its first segment.
proof fn lemma_segments_split(s: Seq<u8>, k: int)
    requires
        0 <= k <= s.len(),
    ensures
        segments_len(s) == segments_len(s.take(k)) + segments_len(s.skip(k)),
    decreases k,
{
    if k > 0 {
        assert(s.take(k).drop_first() =~= s.drop_first().take(k - 1));
        assert(s.skip(k) =~= s.drop_first().skip(k - 1));
        lemma_segments_split(s.drop_first(), k - 1);
    } else {
        assert(s.skip(0) =~= s);
    }
}

/// Reading a page body with header `page` from byte `p` of `d` into a stream whose pending bytes
/// are `pending` and whose packets were all consumed: the pending bytes and packet lengths after
/// it and the position after the body; or the error.
pub open spec fn page_read(pending: Seq<u8>, queued: Seq<int>, d: Seq<u8>, p: int, page: PageHeader) -> Result<
    (Seq<u8>, Seq<int>, int),
    Error,
> {
    let n = page.n_segments as int;
    let segs = d.subrange(p, p + n);
    let w = pending.len() as int;
    let q = total_len(queued);
    let partial = w - q;
    let carry = if partial > 0 && !page.is_continuation {
        0
    } else {
        partial
    };
    let size = segments_len(segs);
    if w > usize::MAX / 4 {
        Err(Error::LimitError("ogg: packet buffer would exceed max size", usize::MAX / 4))
    } else if p + n > d.len() || p + n + size > d.len() {
        Err(eof())
    } else {
        Ok(
            (
                (if carry == 0 {
                    pending.take(q)
                } else {
                    pending
                }) + d.subrange(p + n, p + n + size),
                queued + lacing_packets(segs, carry),
                p + n + size,
            ),
        )
    }
}

/// A logical stream buffers the bodies of its pages and queues the lengths of the packets that
/// they complete.
pub struct LogicalStream {
    buf: Vec<u8>,
    read_from: usize,
    write_at: usize,
    packets: VecDeque<usize>,
}

impl Default for LogicalStream {
    /// An empty logical stream.
    fn default() -> (r: Self)
        ensures
            r.wf(),
            r.pending().len() == 0,
            r.packet_lens().len() == 0,
    {
        let r = LogicalStream { buf: Vec::new(), read_from: 0, write_at: 0, packets: VecDeque::new() };
        assert(r.packet_lens() =~= Seq::<int>::empty());
        r
    }
}

impl LogicalStream {
    /// The buffered bytes not yet consumed: the queued packets, then any incomplete one.
    pub closed spec fn pending(&self) -> Seq<u8> {
        self.buf@.subrange(self.read_from as int, self.write_at as int)
    }

    /// The lengths of the queued complete packets, in order.
    pub closed spec fn packet_lens(&self) -> Seq<int> {
        self.packets@.map_values(|n: usize| n as int)
    }

    /// The pending bytes lie in the buffer.
    closed spec fn bounds(&self) -> bool {
        self.read_from <= self.write_at <= self.buf@.len()
    }

    /// The queued packets lie in the pending bytes.
    pub closed spec fn wf(&self) -> bool {
        &&& self.bounds()
        &&& total_len(self.packet_lens()) <= self.write_at - self.read_from
    }

    /// Clears all packets from the logical stream and resets the stream's packet queue.
    pub fn reset(&mut self)
        ensures
            final(self).wf(),
            final(self).pending().len() == 0,
            final(self).packet_lens().len() == 0,
    {
        self.read_from = 0;
        self.write_at = 0;
        self.packets.clear();
        assert(self.packet_lens() =~= Seq::<int>::empty());
    }

    /// Moves the pending bytes to the start of the buffer.
    fn compact(&mut self)
        requires
            old(self).bounds(),
        ensures
            final(self).bounds(),
            final(self).read_from == 0,
            final(self).write_at == old(self).write_at - old(self).read_from,
            final(self).pending() == old(self).pending(),
            final(self).packets == old(self).packets,
            final(self).buf@.len() == old(self).buf@.len(),
    {
        if self.read_from > 0 {
            let ghost old_buf = self.buf@;
            let from = self.read_from;
            let n = self.write_at - self.read_from;
            let mut k: usize = 0;
            while k < n
                invariant
                    from + n <= old_buf.len(),
                    from + n == self.write_at,
                    from == self.read_from,
                    self.packets == old(self).packets,
                    self.buf@.len() == old_buf.len(),
                    k <= n,
                    forall|j: int| 0 <= j < k ==> self.buf@[j] == old_buf[from + j],
                    forall|j: int| k <= j < old_buf.len() ==> self.buf@[j] == old_buf[j],
                decreases n - k,
            {
                let b = self.buf[from + k];
                self.buf.set(k, b);
                k = k + 1;
            }
            self.write_at = n;
            self.read_from = 0;
            assert(self.pending() =~= old_buf.subrange(from as int, (from + n) as int));
        }
    }

    /// Makes room for `len` more bytes after the pending ones, growing the buffer to a multiple
    /// of 8kB when they would reach its end, and returns where they start. The bytes in the room
    /// are left as they were.
    fn write(&mut self, len: usize) -> (start: usize)
        requires
            old(self).bounds(),
            old(self).write_at - old(self).read_from + len <= usize::MAX / 2,
        ensures
            final(self).bounds(),
            final(self).read_from == 0,
            start == old(self).write_at - old(self).read_from,
            final(self).write_at == start + len,
            final(self).buf@.subrange(0, start as int) == old(self).pending(),
            final(self).packets == old(self).packets,
    {
        self.compact();
        let next_write_at = self.write_at + len;
        if next_write_at >= self.buf.len() {
            let blocks = (next_write_at + (8 * 1024 - 1)) / (8 * 1024);
            assert(blocks * 8192 <= next_write_at + 8191 && blocks * 8192 >= next_write_at) by (nonlinear_arith)
                requires
                    blocks == (next_write_at + 8191) / 8192,
            ;
            let new_buf_size = blocks * (8 * 1024);
            let ghost before = self.buf@;
            while self.buf.len() < new_buf_size
                invariant
                    self.read_from == 0,
                    self.write_at == next_write_at - len,
                    self.write_at <= before.len(),
                    self.packets == old(self).packets,
                    before.len() <= self.buf@.len(),
                    self.buf@.subrange(0, before.len() as int) == before,
                decreases new_buf_size - self.buf@.len(),
            {
                let ghost b = self.buf@;
                self.buf.push(0);
                assert(self.buf@.subrange(0, before.len() as int) =~= b.subrange(0, before.len() as int));
            }
            assert(self.buf@.subrange(0, self.write_at as int) =~= before.subrange(0, self.write_at as int));
        }
        let start = self.write_at;
        self.write_at = next_write_at;
        assert(self.buf@.subrange(0, start as int) =~= self.buf@.subrange(0, start as int));
        start
    }

    /// The total length of the queued packets.
    fn queued_len(&self) -> (r: usize)
        requires
            self.wf(),
        ensures
            r == total_len(self.packet_lens()),
    {
        let ghost lens = self.packet_lens();
        let mut sum: usize = 0;
        let mut k: usize = 0;
        proof {
            assert(lens.take(0) =~= Seq::<int>::empty());
        }
        while k < self.packets.len()
            invariant
                self.wf(),
                lens == self.packet_lens(),
                k <= lens.len(),
                sum == total_len(lens.take(k as int)),
            decreases lens.len() - k,
        {
            proof {
                lemma_total_append(lens.take(k as int), seq![lens[k as int]]);
                assert(lens.take(k as int) + seq![lens[k as int]] =~= lens.take(k + 1));
                assert(seq![lens[k as int]].drop_first() =~= Seq::<int>::empty());
                lemma_total_append(lens.take(k + 1), lens.skip(k + 1));
                assert(lens.take(k + 1) + lens.skip(k + 1) =~= lens);
                assert forall|i: int| 0 <= i < lens.skip(k + 1).len() implies 0 <= #[trigger] lens.skip(k + 1)[i] by {
                    assert(lens.skip(k + 1)[i] == self.packets@[k + 1 + i] as int);
                }
                lemma_total_nonneg(lens.skip(k + 1));
                assert(lens[k as int] == self.packets@[k as int] as int);
                assert(seq![lens[k as int]].drop_first() =~= Seq::<int>::empty());
                assert(total_len(Seq::<int>::empty()) == 0);
                assert(total_len(seq![lens[k as int]]) == lens[k as int]);
            }
            sum = sum + self.packets[k];
            k = k + 1;
        }
        assert(lens.take(k as int) =~= lens);
        sum
    }

    /// Reads the body of `page` from `reader`: its segment table, then the payload that it sizes.
    /// The packets that the segments complete are queued after those already queued, the first
    /// adding to the bytes of a packet begun on earlier pages, and the payload is added to the
    /// pending bytes.
    ///
    /// Where bytes of an incomplete packet remain, past those of the queued packets, but the page
    /// does not continue a packet, that packet cannot be completed: its bytes are dropped, and the
    /// page's first packet counts from its own first segment. A stream whose pending bytes reach
    /// a quarter of the address space is refused with a limit error.
    pub fn read(&mut self, reader: &mut BufStream, page: &PageHeader) -> (r: Result<(), Error>)
        requires
            old(self).wf(),
        ensures
            final(reader).data() == old(reader).data(),
            match page_read(
                old(self).pending(),
                old(self).packet_lens(),
                old(reader).data(),
                old(reader).position() as int,
                *page,
            ) {
                Ok((pend, lens, end)) => r is Ok && final(self).wf() && final(self).pending() == pend
                    && final(self).packet_lens() == lens && final(reader).position() == end,
                Err(e) => r == Err::<(), Error>(e),
            },
    {
        let ghost d = reader.data();
        let ghost p = reader.position() as int;
        let ghost n = page.n_segments as int;
        let ghost segs = d.subrange(p, p + n);
        proof {
            reader.lemma_position_bound();
        }
        let mut w = self.write_at - self.read_from;
        if w > usize::MAX / 4 {
            return Err(Error::LimitError("ogg: packet buffer would exceed max size", usize::MAX / 4));
        }
        // The bytes of the queued packets come first; the incomplete packet, if any, follows.
        let q = self.queued_len();
        let ghost queued = self.packet_lens();
        let mut payload_len: usize = 0;
        let mut packet_len: usize = w - q;
        if packet_len > 0 && !page.is_continuation {
            // The incomplete packet cannot be completed: drop it, and count the page's packets
            // from its own segments.
            packet_len = 0;
            self.write_at = self.read_from + q;
            w = q;
        }
        let ghost carry = packet_len as int;
        let ghost kept = self.pending();
        let ghost wa = self.write_at;
        assert(kept =~= if carry == 0 {
            old(self).pending().take(q as int)
        } else {
            old(self).pending()
        });
        let mut i: u8 = 0;
        proof {
            assert(segs.take(0) =~= Seq::<u8>::empty());
            assert(segs.skip(0) =~= segs);
            assert(segs.skip(0) =~= segs);
        }
        while i < page.n_segments
            invariant
                reader.data() == d,
                d == old(reader).data(),
                p == old(reader).position(),
                n == page.n_segments,
                segs == d.subrange(p, p + n),
                reader.position() == p + i,
                p + i <= d.len(),
                self.bounds(),
                self.buf == old(self).buf,
                self.read_from == old(self).read_from,
                self.write_at == wa,
                self.pending() == kept,
                old(self).pending().len() <= usize::MAX / 4,
                queued == old(self).packet_lens(),
                q == total_len(queued),
                0 <= q,
                carry == 0 || carry == old(self).pending().len() - q,
                w == q + carry,
                w == self.write_at - self.read_from,
                w <= usize::MAX / 4,
                carry >= 0,
                carry <= w,
                i <= n,
                p + n <= d.len() ==> payload_len == segments_len(segs.take(i as int)),
                packet_len <= carry + payload_len,
                p + n <= d.len() ==> queued + lacing_packets(segs, carry) == self.packet_lens()
                    + lacing_packets(segs.skip(i as int), packet_len as int),
                total_len(self.packet_lens()) + packet_len <= q + carry + payload_len,
                payload_len <= 255 * i,
            decreases n - i,
        {
            let segment_len = reader.read_byte()?;
            let ghost k = i as int;
            proof {
                reader.lemma_position_bound();
                if p + n <= d.len() {
                assert(segs[k] == segment_len);
                lemma_segments_split(segs.take(k + 1), k);
                assert(segs.take(k + 1).take(k) =~= segs.take(k));
                assert(segs.take(k + 1).skip(k) =~= seq![segment_len]);
                assert(segments_len(seq![segment_len]) == segment_len) by {
                    assert(seq![segment_len].drop_first() =~= Seq::<u8>::empty());
                    assert(segments_len(Seq::<u8>::empty()) == 0);
                }
                assert(segs.skip(k).drop_first() =~= segs.skip(k + 1));
                assert(segs.skip(k)[0] == segment_len);
                }
            }
            packet_len = packet_len + segment_len as usize;
            payload_len = payload_len + segment_len as usize;
            // A segment shorter than 255 bytes ends a packet.
            if segment_len < 255 {
                let ghost before = self.packet_lens();
                self.packets.push_back(packet_len);
                proof {
                    assert(self.packet_lens() =~= before.push(packet_len as int));
                    assert(before.push(packet_len as int) =~= before + seq![packet_len as int]);
                    lemma_total_append(before, seq![packet_len as int]);
                    assert(seq![packet_len as int].drop_first() =~= Seq::<int>::empty());
                    assert(total_len(Seq::<int>::empty()) == 0);
                    assert(total_len(seq![packet_len as int]) == packet_len);
                    if p + n <= d.len() {
                        assert(lacing_packets(segs.skip(k), (packet_len - segment_len) as int)
                            == seq![packet_len as int] + lacing_packets(segs.skip(k + 1), 0));
                        assert(before + (seq![packet_len as int] + lacing_packets(segs.skip(k + 1), 0))
                            =~= before.push(packet_len as int) + lacing_packets(segs.skip(k + 1), 0));
                    }
                }
                packet_len = 0;
            }
            i = i + 1;
        }
        proof {
            assert(segs.take(n) =~= segs);
            assert(segs.skip(n) =~= Seq::<u8>::empty());
            assert(self.packet_lens() + Seq::<int>::empty() =~= self.packet_lens());
        }
        let ghost lens_after = self.packet_lens();
        // Load the page's payload after the pending bytes.
        let ghost pos_t = reader.position() as int;
        let payload = reader.read_boxed_slice_bytes(payload_len)?;
        let start = self.write(payload_len);
        let mut k: usize = 0;
        while k < payload_len
            invariant
                self.bounds(),
                self.read_from == 0,
                self.write_at == start + payload_len,
                payload@.len() == payload_len,
                k <= payload_len,
                self.buf@.subrange(0, start as int) == kept,
                forall|j: int| 0 <= j < k ==> self.buf@[start + j] == payload@[j],
                self.packet_lens() == lens_after,
            decreases payload_len - k,
        {
            let ghost b = self.buf@;
            self.buf.set(start + k, payload[k]);
            assert(self.buf@.subrange(0, start as int) =~= b.subrange(0, start as int));
            k = k + 1;
        }
        proof {
            assert(self.pending() =~= kept + payload@);
            lemma_lacing_total(segs, carry);
            lemma_total_append(queued, lacing_packets(segs, carry));
        }
        Ok(())
    }

    /// The next complete packet that has been read and queued, if there is one.
    pub fn next_packet(&self) -> (r: Option<Vec<u8>>)
        requires
            self.wf(),
        ensures
            self.packet_lens().len() == 0 ==> r is None,
            self.packet_lens().len() > 0 ==> (r matches Some(v) && v@ == self.pending().take(
                self.packet_lens()[0],
            )),
    {
        if self.packets.len() > 0 {
            let packet_len = self.packets[0];
            proof {
                assert(self.packet_lens()[0] == packet_len);
                lemma_total_first(self.packet_lens());
            }
            let slice = &self.buf.as_slice()[self.read_from..self.read_from + packet_len];
            let v = vstd::slice::slice_to_vec(slice);
            assert(v@ =~= self.pending().take(packet_len as int));
            Some(v)
        } else {
            None
        }
    }

    /// Consumes the next complete packet, if there is one.
    pub fn consume_packet(&mut self)
        requires
            old(self).wf(),
        ensures
            final(self).wf(),
            old(self).packet_lens().len() == 0 ==> final(self).pending() == old(self).pending()
                && final(self).packet_lens() == old(self).packet_lens(),
            old(self).packet_lens().len() > 0 ==> final(self).pending() == old(self).pending().skip(
                old(self).packet_lens()[0],
            ) && final(self).packet_lens() == old(self).packet_lens().drop_first(),
    {
        let ghost lens = self.packet_lens();
        match self.packets.pop_front() {
            Some(packet_len) => {
                proof {
                    assert(lens[0] == packet_len);
                    lemma_total_first(lens);
                    assert(self.packet_lens() =~= lens.drop_first());
                }
                self.read_from = self.read_from + packet_len;
                assert(self.pending() =~= old(self).pending().skip(packet_len as int));
            },
            None => {},
        }
    }
}

} // verus!
