//! The physical Ogg stream: pages, checked by their CRC-32, and the logical streams their bodies
//! feed, one per serial number.

use vstd::prelude::*;
use std::collections::BTreeMap;
use crate::checksum::{Crc32, crc32, lemma_crc32_append};
use crate::errors::Error;
use crate::io::{BufStream, eof};
use crate::ogg::logical::{LogicalStream, page_read, lemma_segments_nonneg};
use crate::ogg::page::{PageHeader, le_at, page_header_at, read_page_header};

verus! {

/// A packet of a logical stream.
pub struct OggPacket {
    /// The serial number of the logical stream.
    pub serial: u32,
    /// The packet's bytes.
    pub data: Vec<u8>,
}

/// What a physical stream holds, as the contracts see it: the current page's header, and for each
/// serial number the pending bytes and queued packet lengths of its logical stream.
pub type PhysicalModel = (PageHeader, Map<u32, (Seq<u8>, Seq<int>)>);

/// The bytes a page's CRC-32 covers, for a page whose header starts at byte `p` of `d` and whose
/// body ends at `end`: the header with its CRC field zeroed, then the segment table and body.
pub open spec fn page_crc_bytes(d: Seq<u8>, p: int, end: int) -> Seq<u8> {
    d.subrange(p, p + 22) + seq![0u8, 0u8, 0u8, 0u8] + d.subrange(p + 26, end)
}

/// Reading the page at byte `p` of `d` into a physical stream `m`: the stream after it, whose
/// current page is the page read and whose logical stream of the page's serial number (a new one
/// if there was none) has read the page's body; and the position after the page. Or the error: a
/// page that ends early, a malformed header or body, or a CRC-32 that does not match.
pub open spec fn read_page_spec(m: PhysicalModel, d: Seq<u8>, p: int) -> Result<
    (PhysicalModel, int),
    Error,
> {
    if p + 27 > d.len() {
        Err(eof())
    } else {
        match page_header_at(d, p) {
            Err(e) => Err(e),
            Ok(h) => {
                let before = if m.1.contains_key(h.serial) {
                    m.1[h.serial].0
                } else {
                    Seq::<u8>::empty()
                };
                match page_read(before, Seq::empty(), d, p + 27, h) {
                    Err(e) => Err(e),
                    Ok((pend, lens, end)) => if crc32(0, page_crc_bytes(d, p, end)) == h.crc {
                        Ok(((h, m.1.insert(h.serial, (pend, lens))), end))
                    } else {
                        Err(Error::DecodeError("crc failure"))
                    },
                }
            },
        }
    }
}

/// Whether the logical stream of the current page of `m` has a complete packet queued.
pub open spec fn has_packet(m: PhysicalModel) -> bool {
    m.1.contains_key(m.0.serial) && m.1[m.0.serial].1.len() > 0
}

/// The next packet of the physical stream `m` at byte `p` of `d`: the first queued packet of the
/// current page's logical stream, reading pages until there is one. The packet's serial number
/// and bytes, the stream after it, and the position after the pages read; or the error of the
/// page that failed.
pub open spec fn next_packet_spec(m: PhysicalModel, d: Seq<u8>, p: int) -> Result<
    (u32, Seq<u8>, PhysicalModel, int),
    Error,
>
    decreases d.len() - p,
{
    if has_packet(m) {
        let s = m.1[m.0.serial];
        Ok((m.0.serial, s.0.take(s.1[0]), m, p))
    } else if p < 0 || p > d.len() {
        Err(eof())
    } else {
        match read_page_spec(m, d, p) {
            Err(e) => Err(e),
            Ok((m2, p2)) => if p2 <= p {
                Err(eof())
            } else {
                next_packet_spec(m2, d, p2)
            },
        }
    }
}

/// The physical stream: the current page's header and a logical stream for each serial number
/// seen.
pub struct PhysicalStream {
    page: PageHeader,
    stream_map: BTreeMap<u32, LogicalStream>,
}

impl PhysicalStream {
    /// The current page's header and the logical streams' pending bytes and packet lengths.
    pub closed spec fn model(&self) -> PhysicalModel {
        (
            self.page,
            self.stream_map@.map_values(
                |ls: LogicalStream| (ls.pending(), ls.packet_lens()),
            ),
        )
    }

    /// Every logical stream is well formed, and only the current page's may have packets queued.
    pub closed spec fn wf(&self) -> bool {
        forall|k: u32|
            #[trigger] self.stream_map@.contains_key(k) ==> self.stream_map@[k].wf() && (k
                != self.page.serial ==> self.stream_map@[k].packet_lens().len() == 0)
    }

    /// No logical stream has packets queued.
    pub closed spec fn drained(&self) -> bool {
        forall|k: u32|
            #[trigger] self.stream_map@.contains_key(k) ==> self.stream_map@[k].packet_lens().len()
                == 0
    }

    /// The header of the current page.
    pub fn current_page(&self) -> (r: &PageHeader)
        ensures
            *r == self.model().0,
    {
        &self.page
    }

    /// Reads a page: its header, then its body into the logical stream of its serial number,
    /// created if new, and checks the page's CRC-32. On a CRC mismatch the logical stream is
    /// reset, since its pending bytes can no longer complete a packet.
    pub fn read_page(&mut self, reader: &mut BufStream) -> (r: Result<(), Error>)
        requires
            old(self).wf(),
            old(self).drained(),
        ensures
            final(reader).data() == old(reader).data(),
            match read_page_spec(old(self).model(), old(reader).data(), old(reader).position() as int) {
                Ok((m2, p2)) => r is Ok && final(self).wf() && final(self).model() == m2
                    && final(reader).position() == p2,
                Err(e) => r == Err::<(), Error>(e),
            },
            r == Err::<(), Error>(Error::DecodeError("crc failure")) ==> final(self).wf() && ({
                let s = final(self).model().0.serial;
                &&& final(self).model().1.contains_key(s)
                &&& final(self).model().1[s].0.len() == 0
                &&& final(self).model().1[s].1.len() == 0
            }),
    {
        broadcast use vstd::std_specs::btree::group_btree_axioms;
        let ghost d = reader.data();
        let ghost p = reader.position() as int;
        let ghost m = self.model();
        proof {
            reader.lemma_position_bound();
        }
        // The page header, 27 bytes.
        let header = reader.read_boxed_slice_bytes(27)?;
        let mut hs = BufStream::new(header.as_slice());
        proof {
            lemma_page_header_shift(d, p);
        }
        let page = read_page_header(&mut hs)?;
        self.page = page;
        // The CRC covers the header with its CRC field zeroed.
        let mut crc = Crc32::new(0);
        let (head, rest) = header.as_slice().split_at(22);
        let (_crc_field, tail) = rest.split_at(4);
        crc.process_buf_bytes(head);
        let zeros: [u8; 4] = [0; 4];
        crc.process_buf_bytes(zeros.as_slice());
        crc.process_buf_bytes(tail);
        proof {
            lemma_crc32_append(0, head@, zeros@);
            lemma_crc32_append(0, head@ + zeros@, tail@);
            assert(zeros@ =~= seq![0u8, 0u8, 0u8, 0u8]);
            assert(head@ =~= d.subrange(p, p + 22));
            assert(tail@ =~= d.subrange(p + 26, p + 27));
        }
        // The logical stream of the page's serial number, new if there is none.
        let serial = page.serial;
        let mut ls = match self.stream_map.remove(&serial) {
            Some(ls) => ls,
            None => LogicalStream::default(),
        };
        let ghost before = ls.pending();
        assert(before == if m.1.contains_key(serial) {
            m.1[serial].0
        } else {
            Seq::<u8>::empty()
        });
        let body_start = reader.pos();
        proof {
            lemma_segments_nonneg(d.subrange(p + 27, p + 27 + page.n_segments));
        }
        match ls.read(reader, &page) {
            Ok(()) => {},
            Err(e) => {
                self.stream_map.insert(serial, ls);
                return Err(e);
            },
        }
        // The rest of the page is checksummed as it was read.
        let body = reader.bytes_since(body_start);
        let ghost c0 = crc.value();
        crc.process_buf_bytes(body);
        proof {
            let end = reader.position() as int;
            assert(body@ =~= d.subrange(p + 27, end));
            assert(d.subrange(p + 26, p + 27) + d.subrange(p + 27, end) =~= d.subrange(p + 26, end));
            lemma_crc32_append(0, d.subrange(p, p + 22) + seq![0u8, 0u8, 0u8, 0u8] + d.subrange(
                p + 26,
                p + 27,
            ), body@);
            assert(d.subrange(p, p + 22) + seq![0u8, 0u8, 0u8, 0u8] + d.subrange(p + 26, p + 27)
                + body@ =~= page_crc_bytes(d, p, end));
        }
        if crc.crc() != page.crc {
            // A corrupt page: the logical stream's pending bytes are of no further use.
            ls.reset();
            self.stream_map.insert(serial, ls);
            proof {
                self.lemma_wf_after_insert(serial);
            }
            return Err(Error::DecodeError("crc failure"));
        }
        self.stream_map.insert(serial, ls);
        proof {
            self.lemma_wf_after_insert(serial);
            assert(self.model().1 =~= m.1.insert(serial, (ls.pending(), ls.packet_lens())));
        }
        Ok(())
    }

    /// Returns the next packet of the current page's logical stream, reading pages until there is
    /// one. The packet stays queued until it is consumed.
    pub fn next_packet(&mut self, reader: &mut BufStream) -> (r: Result<OggPacket, Error>)
        requires
            old(self).wf(),
        ensures
            final(reader).data() == old(reader).data(),
            match next_packet_spec(old(self).model(), old(reader).data(), old(reader).position() as int) {
                Ok((serial, data, m2, p2)) => r matches Ok(pkt) && pkt.serial == serial
                    && pkt.data@ == data && final(self).wf() && final(self).model() == m2
                    && final(reader).position() == p2,
                Err(e) => r matches Err(e2) && e2 == e,
            },
    {
        broadcast use vstd::std_specs::btree::group_btree_axioms;
        let ghost d = reader.data();
        let ghost p0 = reader.position() as int;
        let ghost m0 = self.model();
        proof {
            reader.lemma_position_bound();
        }
        loop
            invariant
                reader.data() == d,
                d == old(reader).data(),
                self.wf(),
                0 <= reader.position() <= d.len(),
                next_packet_spec(m0, d, old(reader).position() as int) == next_packet_spec(
                    self.model(),
                    d,
                    reader.position() as int,
                ),
                m0 == old(self).model(),
                p0 == old(reader).position(),
            decreases d.len() - reader.position(),
        {
            let serial = self.page.serial;
            let packet = match self.stream_map.get(&serial) {
                Some(ls) => ls.next_packet(),
                None => None,
            };
            if let Some(data) = packet {
                return Ok(OggPacket { serial, data });
            }
            proof {
                assert(!has_packet(self.model()));
                assert forall|k: u32| #[trigger] self.stream_map@.contains_key(k) implies self.stream_map@[k].packet_lens().len() == 0 by {
                    if k == serial {
                        assert(self.model().1[k] == (self.stream_map@[k].pending(), self.stream_map@[k].packet_lens()));
                    }
                }
            }
            let ghost pos = reader.position() as int;
            let ghost mb = self.model();
            self.read_page(reader)?;
            proof {
                lemma_read_page_advances(mb, d, pos);
                reader.lemma_position_bound();
            }
        }
    }

    /// Consumes the next packet of the current page's logical stream, if it has one.
    pub fn consume_packet(&mut self)
        requires
            old(self).wf(),
        ensures
            final(self).wf(),
            final(self).model().0 == old(self).model().0,
            ({
                let m = old(self).model();
                let s = m.0.serial;
                final(self).model().1 == if has_packet(m) {
                    m.1.insert(s, (m.1[s].0.skip(m.1[s].1[0]), m.1[s].1.drop_first()))
                } else {
                    m.1
                }
            }),
    {
        broadcast use vstd::std_specs::btree::group_btree_axioms;
        let ghost m = self.model();
        let serial = self.page.serial;
        match self.stream_map.remove(&serial) {
            Some(mut ls) => {
                ls.consume_packet();
                self.stream_map.insert(serial, ls);
                proof {
                    self.lemma_wf_after_insert(serial);
                    if has_packet(m) {
                        assert(self.model().1 =~= m.1.insert(
                            serial,
                            (m.1[serial].0.skip(m.1[serial].1[0]), m.1[serial].1.drop_first()),
                        ));
                    } else {
                        assert(self.model().1 =~= m.1);
                    }
                }
            },
            None => {
                assert(self.model().1 =~= m.1);
            },
        }
    }

    /// The stream stays well formed after the current page's logical stream is put back in.
    proof fn lemma_wf_after_insert(&self, serial: u32)
        requires
            serial == self.page.serial,
            self.stream_map@.contains_key(serial),
            self.stream_map@[serial].wf(),
            forall|k: u32|
                #[trigger] self.stream_map@.contains_key(k) && k != serial ==> self.stream_map@[k].wf()
                    && self.stream_map@[k].packet_lens().len() == 0,
        ensures
            self.wf(),
    {
    }
}

impl Default for PhysicalStream {
    /// A physical stream before its first page: no logical streams.
    fn default() -> (r: Self)
        ensures
            r.wf(),
            r.model().1 == Map::<u32, (Seq<u8>, Seq<int>)>::empty(),
    {
        broadcast use vstd::std_specs::btree::group_btree_axioms;
        let page = PageHeader {
            version: 0,
            ts: 0,
            serial: 0,
            sequence: 0,
            crc: 0,
            n_segments: 0,
            is_continuation: false,
            is_first_page: false,
            is_last_page: false,
        };
        let r = PhysicalStream { page, stream_map: BTreeMap::new() };
        assert(r.model().1 =~= Map::<u32, (Seq<u8>, Seq<int>)>::empty());
        r
    }
}

/// The header at byte `p` of `d` reads the same from a copy of its 27 bytes.
proof fn lemma_page_header_shift(d: Seq<u8>, p: int)
    requires
        0 <= p,
        p + 27 <= d.len(),
    ensures
        page_header_at(d.subrange(p, p + 27), 0) == page_header_at(d, p),
{
    let h = d.subrange(p, p + 27);
    assert(h.subrange(0, 4) =~= d.subrange(p, p + 4));
    assert(h.subrange(6, 14) =~= d.subrange(p + 6, p + 14));
    assert(h.subrange(14, 18) =~= d.subrange(p + 14, p + 18));
    assert(h.subrange(18, 22) =~= d.subrange(p + 18, p + 22));
    assert(h.subrange(22, 26) =~= d.subrange(p + 22, p + 26));
    assert(le_at(h, 6, 8) == le_at(d, p + 6, 8));
}

/// A page read moves past at least its header.
proof fn lemma_read_page_advances(m: PhysicalModel, d: Seq<u8>, p: int)
    ensures
        read_page_spec(m, d, p) matches Ok((_, p2)) ==> p2 >= p + 27,
{
    if p + 27 <= d.len() {
        if let Ok(h) = page_header_at(d, p) {
            lemma_segments_nonneg(d.subrange(p + 27, p + 27 + h.n_segments));
        }
    }
}

} // verus!
