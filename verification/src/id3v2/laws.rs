//! Laws of the ID3v2 byte codings: syncsafe integers and the unsynchronisation scheme.

use vstd::prelude::*;
use crate::id3v2::{syncsafe, unsync_from};

verus! {

/// The bytes of `s` with the unsynchronisation scheme applied: a zero byte inserted after every
/// 0xff byte.
pub open spec fn unsync_applied(s: Seq<u8>) -> Seq<u8>
    decreases s.len(),
{
    if s.len() == 0 {
        seq![]
    } else if s[0] == 0xff {
        seq![0xffu8, 0u8] + unsync_applied(s.drop_first())
    } else {
        seq![s[0]] + unsync_applied(s.drop_first())
    }
}

/// Undoing the scheme from inside a string does not look before the point it starts at.
proof fn lemma_unsync_suffix(a: Seq<u8>, b: Seq<u8>, j: int)
    requires
        0 <= j <= b.len(),
    ensures
        unsync_from(a + b, a.len() + j) == unsync_from(b, j),
    decreases b.len() - j,
{
    let t = a + b;
    let i = a.len() + j;
    if j < b.len() {
        assert(t[i] == b[j]);
        if j + 1 < b.len() {
            assert(t[i + 1] == b[j + 1]);
        }
        if j < b.len() - 1 && b[j] == 0xff && b[j + 1] == 0 {
            lemma_unsync_suffix(a, b, j + 2);
        } else if j < b.len() - 1 {
            lemma_unsync_suffix(a, b, j + 1);
        }
    }
}

/// Undoing unsynchronisation gives back exactly the bytes the scheme was applied to.
pub proof fn lemma_unsync_round_trip(s: Seq<u8>)
    ensures
        unsync_from(unsync_applied(s), 0) == s,
    decreases s.len(),
{
    if s.len() > 0 {
        let rest = unsync_applied(s.drop_first());
        lemma_unsync_round_trip(s.drop_first());
        if s[0] == 0xff {
            let head = seq![0xffu8, 0u8];
            let t = head + rest;
            assert(t[0] == 0xff && t[1] == 0);
            lemma_unsync_suffix(head, rest, 0);
            assert(t.len() == 2 + rest.len());
            if rest.len() == 0 {
                assert(unsync_from(t, 2) == Seq::<u8>::empty());
            }
            assert(unsync_from(t, 0) == seq![0xffu8] + unsync_from(t, 2));
            assert(s =~= seq![s[0]] + s.drop_first());
        } else {
            let head = seq![s[0]];
            let t = head + rest;
            lemma_unsync_suffix(head, rest, 0);
            if rest.len() == 0 {
                assert(unsync_from(t, 0) == seq![s[0]]);
            } else {
                assert(t[0] != 0xff);
                assert(unsync_from(t, 0) == seq![s[0]] + unsync_from(t, 1));
            }
            assert(s =~= seq![s[0]] + s.drop_first());
        }
    }
}

/// Four syncsafe bytes below 128 are the base-128 digits of the value, most significant first,
/// and the top bit of each byte is ignored.
pub proof fn lemma_syncsafe_digits(d: Seq<u8>, p: int)
    ensures
        syncsafe(d, p, 4) == (d[p] % 128) * 0x20_0000 + (d[p + 1] % 128) * 0x4000 + (d[p + 2] % 128)
            * 0x80 + d[p + 3] % 128,
{
    assert(syncsafe(d, p, 0) == 0);
    assert(syncsafe(d, p, 1) == d[p] % 128);
    assert(syncsafe(d, p, 2) == (d[p] % 128) * 128 + d[p + 1] % 128);
    assert(syncsafe(d, p, 3) == syncsafe(d, p, 2) * 128 + d[p + 2] % 128);
    assert(syncsafe(d, p, 4) == syncsafe(d, p, 3) * 128 + d[p + 3] % 128);
}

} // verus!
