//! Laws of Ogg lacing: how a page's segment table splits its body into packets.

use vstd::prelude::*;
use crate::ogg::logical::{lacing_packets, total_len, segments_len};

verus! {

/// The number of segments of `s` shorter than 255 bytes.
pub open spec fn short_segments(s: Seq<u8>) -> nat
    decreases s.len(),
{
    if s.len() == 0 {
        0
    } else {
        (if s[0] < 255 {
            1nat
        } else {
            0nat
        }) + short_segments(s.drop_first())
    }
}

/// A segment table ends one packet at each segment shorter than 255 bytes, so it completes as
/// many packets as it has such segments; and when its last segment is shorter than 255 bytes,
/// the packets it completes hold exactly the bytes carried into it and those of its segments.
pub proof fn lemma_lacing(segs: Seq<u8>, carry: int)
    ensures
        lacing_packets(segs, carry).len() == short_segments(segs),
        segs.len() > 0 && segs.last() < 255 ==> total_len(lacing_packets(segs, carry)) == carry
            + segments_len(segs),
    decreases segs.len(),
{
    if segs.len() > 0 {
        let rest = segs.drop_first();
        if rest.len() > 0 {
            assert(rest.last() == segs.last());
        }
        if segs[0] < 255 {
            lemma_lacing(rest, 0);
            let tail = lacing_packets(rest, 0);
            let packets = seq![carry + segs[0]] + tail;
            assert(packets.drop_first() =~= tail);
            assert(lacing_packets(segs, carry) == packets);
            assert(total_len(packets) == carry + segs[0] + total_len(tail));
            assert(segments_len(segs) == segs[0] + segments_len(rest));
            if rest.len() == 0 {
                assert(tail.len() == 0);
                assert(total_len(tail) == 0);
                assert(segments_len(rest) == 0);
            }
        } else {
            lemma_lacing(rest, carry + 255);
        }
    }
}

} // verus!
