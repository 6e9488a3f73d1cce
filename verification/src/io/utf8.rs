//! Decoding of integers coded with the extended UTF-8 scheme used by FLAC frame headers.

use vstd::prelude::*;
use vstd::arithmetic::power2::{pow2, lemma_pow2_adds, lemma2_to64};
use crate::errors::Error;
use crate::io::buf_stream::{BufStream, eof};

verus! {

/// The number of continuation bytes that follow a leading byte, or `None` if the byte cannot lead
/// a sequence.
pub open spec fn utf8_continuations(lead: u8) -> Option<nat> {
    if lead <= 0x7f {
        Some(0)
    } else if 0xc0 <= lead <= 0xdf {
        Some(1)
    } else if 0xe0 <= lead <= 0xef {
        Some(2)
    } else if 0xf0 <= lead <= 0xf7 {
        Some(3)
    } else if 0xf8 <= lead <= 0xfb {
        Some(4)
    } else if 0xfc <= lead <= 0xfd {
        Some(5)
    } else if lead == 0xfe {
        Some(6)
    } else {
        None
    }
}

/// The data bits carried by a leading byte followed by `k` continuation bytes.
pub open spec fn utf8_lead_bits(lead: u8, k: nat) -> nat {
    if k == 0 {
        lead as nat
    } else {
        (lead as nat) % pow2((6 - k) as nat)
    }
}

/// The value accumulated from `first`, followed by the low 6 bits of each of the `k` bytes of `s`
/// starting at `p`.
pub open spec fn utf8_fold(first: nat, s: Seq<u8>, p: int, k: nat) -> nat
    decreases k,
{
    if k == 0 {
        first
    } else {
        utf8_fold(first, s, p, (k - 1) as nat) * 64 + (s[p + k - 1] as nat) % 64
    }
}

proof fn lemma_utf8_fold_bound(first: nat, s: Seq<u8>, p: int, k: nat)
    requires
        first < 64,
    ensures
        utf8_fold(first, s, p, k) < pow2(6 * (k + 1)),
    decreases k,
{
    lemma2_to64();
    if k > 0 {
        lemma_utf8_fold_bound(first, s, p, (k - 1) as nat);
        lemma_pow2_adds(6 * k, 6);
        assert(6 * (k + 1) == 6 * k + 6);
    }
}

/// The integer coded with extended UTF8 at byte `p` of `s`: `None` when the first byte cannot
/// start a sequence, and the byte position after what was read.
pub open spec fn utf8_number(s: Seq<u8>, p: int) -> Result<(Option<u64>, int), Error> {
    if p >= s.len() {
        Err(eof())
    } else {
        match utf8_continuations(s[p]) {
            None => Ok((None, p + 1)),
            Some(k) => if p + 1 + k > s.len() {
                Err(eof())
            } else {
                Ok((Some(utf8_fold(utf8_lead_bits(s[p], k), s, p + 1, k) as u64), p + 1 + k))
            },
        }
    }
}

/// Decodes a big-endian unsigned integer encoded via extended UTF8. In this context, extended UTF8
/// simply means the encoded UTF8 value may be up to 7 bytes for a maximum integer bit width of
/// 36-bits. Returns `None` when the first byte cannot start a sequence.
pub fn utf8_decode_be_u64(src: &mut BufStream) -> (r: Result<Option<u64>, Error>)
    ensures
        final(src).data() == old(src).data(),
        ({
            let s = old(src).data();
            let p = old(src).position() as int;
            &&& (p < s.len() && (utf8_continuations(s[p]) matches Some(k) ==> p + 1 + k <= s.len()))
                <==> r is Ok
            &&& r matches Ok(v) ==> match utf8_continuations(s[p]) {
                None => v is None && final(src).position() == p + 1,
                Some(k) => v == Some(utf8_fold(utf8_lead_bits(s[p], k), s, p + 1, k) as u64)
                    && final(src).position() == p + 1 + k,
            }
            &&& r matches Err(e) ==> e == eof()
        }),
        match utf8_number(old(src).data(), old(src).position() as int) {
            Ok((v, p)) => r == Ok::<Option<u64>, Error>(v) && final(src).position() == p,
            Err(e) => r == Err::<Option<u64>, Error>(e) && final(src).position()
                == old(src).data().len(),
        },
{
    let ghost s = src.data();
    let ghost p = src.position() as int;
    proof {
        src.lemma_position_bound();
        lemma2_to64();
    }
    let lead = match src.read_u8() {
        Ok(b) => b,
        Err(e) => {
            proof {
                src.lemma_position_bound();
            }
            return Err(e);
        },
    };
    assert(s[p] == lead);

    // UTF8 prefixes 1s followed by a 0 to indicate the total number of bytes within the multi-byte
    // sequence. The leading byte's data bits are below that prefix.
    let (modulus, count): (u64, u32) = if lead <= 0x7f {
        return Ok(Some(lead as u64));
    } else if lead >= 0xc0 && lead <= 0xdf {
        (32, 1)
    } else if lead >= 0xe0 && lead <= 0xef {
        (16, 2)
    } else if lead >= 0xf0 && lead <= 0xf7 {
        (8, 3)
    } else if lead >= 0xf8 && lead <= 0xfb {
        (4, 4)
    } else if lead >= 0xfc && lead <= 0xfd {
        (2, 5)
    } else if lead == 0xfe {
        (1, 6)
    } else {
        return Ok(None);
    };

    let mut state: u64 = (lead as u64) % modulus;
    proof {
        assert(modulus == pow2((6 - count) as nat));
    }

    // Each subsequent byte after the first is prefixed with 0b10xx_xxxx, therefore only 6 bits
    // are useful. Append these six bits to the result.
    let mut i: u32 = 0;
    while i < count
        invariant
            src.data() == s,
            s == old(src).data(),
            p == old(src).position(),
            p < s.len(),
            s[p] == lead,
            1 <= count <= 6,
            utf8_continuations(lead) == Some(count as nat),
            i <= count,
            src.position() == p + 1 + i,
            state == utf8_fold(utf8_lead_bits(lead, count as nat), s, p + 1, i as nat),
            state < pow2(6 * (i as nat + 1)),
        decreases count - i,
    {
        proof {
            src.lemma_position_bound();
            lemma2_to64();
            lemma_pow2_adds(6 * (i as nat + 1), 6);
            if 6 * (i as nat + 1) + 6 < 64 {
                vstd::arithmetic::power2::lemma_pow2_strictly_increases(6 * (i as nat + 1) + 6, 64);
            }
        }
        let byte = match src.read_u8() {
            Ok(b) => b,
            Err(e) => {
                assert(p + 1 + count > s.len());
                proof {
                    src.lemma_position_bound();
                }
                return Err(e);
            },
        };
        state = state * 64 + (byte as u64) % 64;
        i = i + 1;
        proof {
            lemma2_to64();
            lemma_utf8_fold_bound(utf8_lead_bits(lead, count as nat), s, p + 1, i as nat);
        }
    }

    proof {
        src.lemma_position_bound();
    }
    Ok(Some(state))
}

} // verus!
