//! Tables for decoding Huffman codes.
//!
//! A `HuffmanTable` is a flattened table of sub-tables. Each sub-table is a look-up table for a
//! portion of a complete Huffman code word. A look-up either finds the decoded value, or says how
//! many further bits to read and where the sub-table for them starts. The sub-tables form a tree
//! of prefixes whose leaves hold the decoded values.

use vstd::prelude::*;
use vstd::arithmetic::power2::pow2;
use crate::errors::{Error, IoErrorKind};
use crate::io::bits_model::bits_val;
use crate::io::buf_stream::eof;

verus! {

/// An entry of a `HuffmanTable`: either a value entry, which ends a code and holds the decoded
/// value, or a jump entry, which points to the sub-table for the next part of the code.
pub trait HuffmanEntry: Sized {
    /// The type of the decoded values.
    type ValueType: Copy;

    /// Whether this is a value entry.
    fn is_value(&self) -> bool;

    /// Whether this is a jump entry.
    fn is_jump(&self) -> bool;

    /// For a jump entry, where its sub-table starts in the table.
    fn jump_offset(&self) -> usize;

    /// For a jump entry, how many bits to read for the next look-up.
    fn next_len(&self) -> u32;

    /// For a value entry, the length of the code's last part.
    fn code_len(&self) -> u32;

    /// For a value entry, the decoded value.
    fn into_value(self) -> Self::ValueType;
}

/// A Huffman table entry for 8-bit values. A value entry has the top bit of its first word set
/// and the code length in the low bits; a jump entry holds the number of bits to read next. The
/// second word is the value, or the offset of the sub-table.
pub type H8 = (u16, u16);

/// Whether `e` is a value entry.
pub open spec fn h8_is_value(e: H8) -> bool {
    e.0 >= 0x8000
}

/// The length of the code part that value entry `e` ends.
pub open spec fn h8_code_len(e: H8) -> int {
    e.0 - 0x8000
}

/// The value held by value entry `e`.
pub open spec fn h8_value(e: H8) -> u8 {
    e.1 as u8
}

impl HuffmanEntry for (u16, u16) {
    type ValueType = u8;

    fn is_value(&self) -> (r: bool)
        ensures
            r == h8_is_value(*self),
    {
        let w = self.0;
        proof {
            assert((w & 0x8000 != 0) == (w >= 0x8000)) by (bit_vector);
        }
        self.0 & 0x8000 != 0
    }

    fn is_jump(&self) -> (r: bool)
        ensures
            r == !h8_is_value(*self),
    {
        let w = self.0;
        proof {
            assert((w & 0x8000 == 0) == (w < 0x8000)) by (bit_vector);
        }
        self.0 & 0x8000 == 0
    }

    fn jump_offset(&self) -> (r: usize)
        ensures
            r == self.1,
    {
        self.1 as usize
    }

    fn next_len(&self) -> (r: u32)
        ensures
            r == self.0,
    {
        self.0 as u32
    }

    fn code_len(&self) -> (r: u32)
        ensures
            h8_is_value(*self) ==> r == h8_code_len(*self),
            r < 0x8000,
    {
        let w = self.0;
        proof {
            assert(w & 0x7fff < 0x8000) by (bit_vector);
            assert(w >= 0x8000 ==> w & 0x7fff == w - 0x8000) by (bit_vector);
        }
        (self.0 & 0x7fff) as u32
    }

    fn into_value(self) -> (r: u8)
        ensures
            r == h8_value(self),
    {
        self.1 as u8
    }
}

/// A table that maps Huffman codes to decoded values.
///
/// A sub-table has at most `2^n_init_bits` entries; the first look-up reads `n_init_bits` bits.
pub struct HuffmanTable<H: HuffmanEntry + 'static> {
    /// The entries of all sub-tables.
    pub data: &'static [H],
    /// The number of bits to read for the first look-up.
    pub n_init_bits: u32,
    /// The length in bits of the longest code in the table.
    pub n_table_bits: u32,
}

/// A table whose look-ups all stay inside it and only move forward: the first look-up reads at
/// most 8 bits, and every jump reads between 1 and 8 bits and leads to a sub-table that lies after
/// the jump entry and fits in the table.
pub open spec fn huffman_table_wf(t: &HuffmanTable<H8>) -> bool {
    let e = t.data@;
    &&& t.n_init_bits <= 8
    &&& pow2(t.n_init_bits as nat) <= e.len()
    &&& e.len() < 0x1000_0000
    &&& forall|i: int|
        0 <= i < e.len() && !h8_is_value(#[trigger] e[i]) ==> {
            &&& 1 <= e[i].0 <= 8
            &&& i < e[i].1
            &&& e[i].1 + pow2(e[i].0 as nat) <= e.len()
        }
}

/// Following the table `e` from entry `idx`, with the bits of `s` from bit index `pos` and the
/// last read `n_last` bits long, after `code_len` bits of the code so far. With `limited`, no more
/// than `lim` code bits are read: a jump that would need more reads only up to the limit, and
/// its bits are the high bits of the next look-up. The result is the entry where the walk stops,
/// the bit index after it, the length of the last read and the code length; or the error of a
/// read past the end of `s`.
pub open spec fn huffman_walk(
    e: Seq<H8>,
    s: Seq<u8>,
    idx: int,
    pos: int,
    n_last: nat,
    code_len: nat,
    lim: nat,
    limited: bool,
) -> Result<(int, int, nat, nat), Error>
    decreases e.len() - idx,
{
    if !(0 <= idx < e.len()) || h8_is_value(e[idx]) || (limited && code_len >= lim) {
        Ok((idx, pos, n_last, code_len))
    } else {
        let full = e[idx].0 as nat;
        let n: nat = if limited && lim - code_len < full {
            (lim - code_len) as nat
        } else {
            full
        };
        if pos + n > 8 * s.len() {
            Err(eof())
        } else {
            let next = e[idx].1 + bits_val(s, pos, n) * pow2((full - n) as nat);
            if next <= idx || next >= e.len() {
                Ok((idx, pos, n_last, code_len))
            } else {
                huffman_walk(e, s, next, pos + n, n, code_len + n, lim, limited)
            }
        }
    }
}

/// The look-up of a code starting at bit index `p` of `s` in table `t`, reading no more than
/// `lim` bits when the table's longest code is longer than that: where the walk stops, as
/// `huffman_walk` gives it.
pub open spec fn huffman_lookup(t: &HuffmanTable<H8>, s: Seq<u8>, p: int, lim: nat) -> Result<
    (int, int, nat, nat),
    Error,
> {
    let init = t.n_init_bits as nat;
    if t.n_table_bits <= lim || init < lim {
        if p + init > 8 * s.len() {
            Err(eof())
        } else {
            huffman_walk(
                t.data@,
                s,
                bits_val(s, p, init) as int,
                p + init,
                init,
                init,
                lim,
                lim < t.n_table_bits,
            )
        }
    } else if p + lim > 8 * s.len() {
        Err(eof())
    } else {
        Ok(((bits_val(s, p, lim) * pow2((init - lim) as nat)) as int, p + lim, lim, lim))
    }
}

/// The decoded value, the code length and the bit index after the code, for a code starting at
/// bit index `p` of `s`; or the error. A look-up that stops on a jump entry, or on a value entry
/// whose code part is longer than the bits read for it, fails.
pub open spec fn huffman_decode(t: &HuffmanTable<H8>, s: Seq<u8>, p: int, lim: nat) -> Result<
    (u8, int, int),
    Error,
> {
    match huffman_lookup(t, s, p, lim) {
        Err(err) => Err(err),
        Ok((idx, pos, n_last, code_len)) => {
            let ent = t.data@[idx];
            if h8_is_value(ent) && n_last >= h8_code_len(ent) {
                let extra = n_last - h8_code_len(ent);
                Ok((h8_value(ent), code_len - extra, pos - extra))
            } else {
                Err(Error::IoError(IoErrorKind::Other))
            }
        },
    }
}

/// A walk moves the bit index by exactly the bits it adds to the code length, and the last read
/// is never longer than the code.
pub proof fn lemma_huffman_walk_len(
    e: Seq<H8>,
    s: Seq<u8>,
    idx: int,
    pos: int,
    n_last: nat,
    code_len: nat,
    lim: nat,
    limited: bool,
)
    requires
        n_last <= code_len,
    ensures
        huffman_walk(e, s, idx, pos, n_last, code_len, lim, limited) matches Ok((i2, p2, n2, c2))
            ==> p2 - pos == c2 - code_len && n2 <= c2,
    decreases e.len() - idx,
{
    if !(0 <= idx < e.len()) || h8_is_value(e[idx]) || (limited && code_len >= lim) {
    } else {
        let full = e[idx].0 as nat;
        let n: nat = if limited && lim - code_len < full {
            (lim - code_len) as nat
        } else {
            full
        };
        if pos + n > 8 * s.len() {
        } else {
            let next = e[idx].1 + bits_val(s, pos, n) * pow2((full - n) as nat);
            if next <= idx || next >= e.len() {
            } else {
                lemma_huffman_walk_len(e, s, next, pos + n, n, code_len + n, lim, limited);
            }
        }
    }
}

/// A decoded code ends exactly its length after where it starts.
pub proof fn lemma_huffman_decode_len(t: &HuffmanTable<H8>, s: Seq<u8>, p: int, lim: nat)
    ensures
        huffman_decode(t, s, p, lim) matches Ok((v, len, end)) ==> end == p + len && len >= 0,
{
    let init = t.n_init_bits as nat;
    if t.n_table_bits <= lim || init < lim {
        if p + init <= 8 * s.len() {
            lemma_huffman_walk_len(
                t.data@,
                s,
                bits_val(s, p, init) as int,
                p + init,
                init,
                init,
                lim,
                lim < t.n_table_bits,
            );
        }
    }
}

} // verus!
