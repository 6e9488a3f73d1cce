//! Bit-level reading of a byte stream, most significant bit first.

use vstd::prelude::*;
use vstd::arithmetic::power2::{pow2, lemma2_to64, lemma_pow2_pos, lemma_pow2_adds};
use vstd::arithmetic::div_mod::lemma_mod_mod;
use vstd::bits::lemma_u32_shl_is_mul;
use crate::errors::{Error, IoErrorKind};
use crate::io::huffman::{HuffmanEntry, HuffmanTable, H8, huffman_table_wf, huffman_lookup, huffman_walk, huffman_decode};
use crate::io::bits_model::{bit_at, first_one, bits_val, lemma_bits_val_bound, lemma_bits_val_split, lemma_bits_val_byte, lemma_bits_val_byte_suffix, lemma_div_mod_parts};
use crate::io::buf_stream::{BufStream, eof};
use crate::util::bits::{sign_extend, sign_extend_leq32_to_i32, sign_extend_leq64_to_i64};

verus! {

/// `2^n` as a `u32`.
pub(crate) fn pow2_u32(n: u32) -> (r: u32)
    requires
        n < 32,
    ensures
        r == pow2(n as nat),
{
    proof {
        lemma2_to64();
        lemma_u32_shl_is_mul(1u32, n);
    }
    1u32 << n
}

/// `2^n` as a `u64`.
pub(crate) fn pow2_u64(n: u32) -> (r: u64)
    requires
        n < 64,
    ensures
        r == pow2(n as nat),
{
    proof {
        lemma2_to64();
        vstd::arithmetic::power2::lemma2_to64_rest();
        vstd::bits::lemma_u64_shl_is_mul(1u64, n as u64);
    }
    1u64 << n
}

/// A power of two with an exponent of at most 8 is at most 256.
proof fn lemma_pow2_le_256(k: nat)
    requires
        k <= 8,
    ensures
        pow2(k) <= 256,
        pow2(k) > 0,
{
    lemma2_to64();
    lemma_pow2_pos(k);
    if k < 8 {
        vstd::arithmetic::power2::lemma_pow2_strictly_increases(k, 8);
    }
}

/// Splitting the `n0` cached bits `v` at `num`: the high part is the first `num` bits, the low
/// part the remaining ones.
proof fn lemma_take(s: Seq<u8>, p0: int, n0: nat, num: nat, v: nat)
    requires
        num <= n0,
        v == bits_val(s, p0, n0),
    ensures
        v / pow2((n0 - num) as nat) == bits_val(s, p0, num),
        v % pow2((n0 - num) as nat) == bits_val(s, p0 + num, (n0 - num) as nat),
{
    let m = (n0 - num) as nat;
    lemma_bits_val_split(s, p0, num, m);
    lemma_bits_val_bound(s, p0 + num, m);
    lemma_pow2_pos(m);
    lemma_div_mod_parts(bits_val(s, p0, num), bits_val(s, p0 + num, m), pow2(m));
}

/// Reducing modulo `2^n0` before reducing modulo `2^nl` changes nothing when `nl <= n0`.
proof fn lemma_mod_pow2_mod(x: nat, nl: nat, n0: nat)
    requires
        nl <= n0,
    ensures
        (x % pow2(n0)) % pow2(nl) == x % pow2(nl),
{
    lemma_pow2_adds(nl, (n0 - nl) as nat);
    lemma_pow2_pos(nl);
    lemma_pow2_pos((n0 - nl) as nat);
    lemma_mod_mod(x as int, pow2(nl) as int, pow2((n0 - nl) as nat) as int);
}

/// A `BitReaderLtr` reads sequential bits from a byte source where, within a single read, bits
/// descend in significance: the first bit read from the source is the most-significant bit of the
/// result.
///
/// A `BitReaderLtr` consumes whole bytes from the source as required even if only one bit is to be
/// read. Bits left over from a byte are kept for later reads, and are consumed before a new byte
/// is read from the source.
pub struct BitReaderLtr {
    bits: u32,
    n_bits_left: u32,
}

impl BitReaderLtr {
    /// The most recently read bits; the low `bits_left()` of them are not yet consumed.
    pub closed spec fn cached(&self) -> u32 {
        self.bits
    }

    /// The number of bits read from the source but not yet consumed.
    pub closed spec fn bits_left(&self) -> nat {
        self.n_bits_left as nat
    }

    /// The reader's kept bits are the unconsumed bits that precede the source's read position.
    pub open spec fn consistent(&self, src: &BufStream) -> bool {
        self.bits_left() == 0 || {
            &&& self.bits_left() <= 16
            &&& self.bits_left() <= 8 * src.position()
            &&& self.cached() as nat % pow2(self.bits_left()) == bits_val(
                src.data(),
                8 * src.position() - self.bits_left(),
                self.bits_left(),
            )
        }
    }

    /// The index, in bits, of the next bit to be read from `src` through this reader.
    pub open spec fn bit_pos(&self, src: &BufStream) -> int {
        8 * src.position() - self.bits_left()
    }

    /// Instantiates a new `BitReaderLtr`.
    pub fn new() -> (r: BitReaderLtr)
        ensures
            r.bits_left() == 0,
    {
        BitReaderLtr { bits: 0, n_bits_left: 0 }
    }

    /// Discards any kept bits to prepare for a byte-aligned read from the source.
    pub fn realign(&mut self)
        ensures
            final(self).bits_left() == 0,
    {
        self.n_bits_left = 0;
    }

    /// Reads up to 32 bits and returns them as a u32, or returns an error if the source ends first.
    pub fn read_bits_leq32(&mut self, src: &mut BufStream, num_bits: u32) -> (r: Result<u32, Error>)
        requires
            num_bits <= 32,
            old(self).consistent(old(src)),
        ensures
            final(src).data() == old(src).data(),
            old(self).bit_pos(old(src)) + num_bits <= 8 * old(src).data().len() <==> r is Ok,
            r matches Ok(v) ==> {
                &&& v == bits_val(old(src).data(), old(self).bit_pos(old(src)), num_bits as nat)
                &&& final(self).bit_pos(final(src)) == old(self).bit_pos(old(src)) + num_bits
                &&& final(self).consistent(final(src))
            },
            r is Ok && old(self).bits_left() <= 7 ==> final(self).bits_left() <= 7,
            r matches Err(e) ==> e == eof(),
    {
        let ghost s = src.data();
        let ghost pos0 = src.position();
        let ghost p0 = self.bit_pos(src);
        let n0 = self.n_bits_left;
        proof {
            src.lemma_position_bound();
            lemma2_to64();
        }
        if num_bits <= n0 {
            let nl = n0 - num_bits;
            let valid = self.bits % pow2_u32(n0);
            let res = valid / pow2_u32(nl);
            proof {
                lemma_take(s, p0, n0 as nat, num_bits as nat, valid as nat);
                lemma_mod_pow2_mod(self.bits as nat, nl as nat, n0 as nat);
            }
            self.n_bits_left = nl;
            Ok(res)
        } else {
            let mut res: u32 = if n0 == 0 { 0 } else { self.bits % pow2_u32(n0) };
            let mut remaining = num_bits - n0;
            proof {
                if n0 > 0 {
                    assert(res == bits_val(s, p0, n0 as nat));
                }
                lemma_bits_val_bound(s, p0, n0 as nat);
            }
            while remaining >= 8
                invariant
                    src.data() == s,
                    src.position() <= s.len(),
                    n0 <= 16,
                    num_bits <= 32,
                    0 <= remaining <= num_bits - n0,
                    s == old(src).data(),
                    p0 == old(self).bit_pos(old(src)),
                    8 * src.position() == p0 + n0 + (num_bits - n0 - remaining),
                    res == bits_val(s, p0, (num_bits - remaining) as nat),
                    res < pow2((num_bits - remaining) as nat),
                    pow2(32) == 0x1_0000_0000,
                decreases remaining,
            {
                let ghost before = src.position();
                proof {
                    src.lemma_position_bound();
                }
                let byte = src.read_u8()?;
                proof {
                    let k = (num_bits - remaining) as nat;
                    lemma2_to64();
                    if k < 24 {
                        vstd::arithmetic::power2::lemma_pow2_strictly_increases(k, 24);
                    }
                    lemma_bits_val_byte(s, before as int);
                    lemma_bits_val_split(s, p0, k, 8);
                    lemma_bits_val_bound(s, p0, k + 8);
                    lemma_pow2_adds(k, 8);
                    vstd::arithmetic::power2::lemma_pow2_strictly_increases(k + 8, 33);
                    if k + 8 < 32 {
                        vstd::arithmetic::power2::lemma_pow2_strictly_increases(k + 8, 32);
                    }
                }
                res = res * 256 + byte as u32;
                remaining = remaining - 8;
            }
            if remaining > 0 {
                let ghost before = src.position();
                proof {
                    src.lemma_position_bound();
                }
                let byte = src.read_u8()?;
                let shift = 8 - remaining;
                let hi = (byte as u32) / pow2_u32(shift);
                proof {
                    let k = (num_bits - remaining) as nat;
                    lemma_bits_val_byte_suffix(s, before as int, shift as nat);
                    lemma_bits_val_split(s, p0, k, remaining as nat);
                    lemma_bits_val_bound(s, p0, num_bits as nat);
                    lemma_pow2_pos(shift as nat);
                    if num_bits < 32 {
                        vstd::arithmetic::power2::lemma_pow2_strictly_increases(num_bits as nat, 32);
                    }
                    lemma_pow2_pos(remaining as nat);
                }
                res = res * pow2_u32(remaining) + hi;
                self.bits = byte as u32;
                self.n_bits_left = shift;
            } else {
                self.n_bits_left = 0;
            }
            Ok(res)
        }
    }

    /// Reads a single bit as a boolean value, or returns an error if the source has ended.
    pub fn read_bit(&mut self, src: &mut BufStream) -> (r: Result<bool, Error>)
        requires
            old(self).consistent(old(src)),
        ensures
            final(src).data() == old(src).data(),
            old(self).bit_pos(old(src)) < 8 * old(src).data().len() <==> r is Ok,
            r matches Ok(b) ==> {
                &&& b == (bit_at(old(src).data(), old(self).bit_pos(old(src))) == 1)
                &&& final(self).bit_pos(final(src)) == old(self).bit_pos(old(src)) + 1
                &&& final(self).consistent(final(src))
            },
            r is Ok && old(self).bits_left() <= 7 ==> final(self).bits_left() <= 7,
            r matches Err(e) ==> e == eof(),
    {
        let ghost s = src.data();
        proof {
            src.lemma_position_bound();
            lemma2_to64();
        }
        if self.n_bits_left == 0 {
            let ghost before = src.position();
            let byte = src.read_u8()?;
            proof {
                lemma_bits_val_byte(s, before as int);
            }
            self.bits = byte as u32;
            self.n_bits_left = 8;
        }
        let ghost p0 = self.bit_pos(src);
        let n0 = self.n_bits_left;
        let nl = n0 - 1;
        let valid = self.bits % pow2_u32(n0);
        let bit = valid / pow2_u32(nl);
        proof {
            lemma_take(s, p0, n0 as nat, 1, valid as nat);
            lemma_mod_pow2_mod(self.bits as nat, nl as nat, n0 as nat);
            reveal_with_fuel(bits_val, 2);
        }
        self.n_bits_left = nl;
        Ok(bit == 1)
    }

    /// Ignores one bit from the stream or returns an error.
    pub fn ignore_bit(&mut self, src: &mut BufStream) -> (r: Result<(), Error>)
        requires
            old(self).consistent(old(src)),
        ensures
            final(src).data() == old(src).data(),
            old(self).bit_pos(old(src)) + 1 <= 8 * old(src).data().len() <==> r is Ok,
            r is Ok ==> final(self).bit_pos(final(src)) == old(self).bit_pos(old(src)) + 1
                && final(self).consistent(final(src)),
            r is Ok && old(self).bits_left() <= 7 ==> final(self).bits_left() <= 7,
            r matches Err(e) ==> e == eof(),
    {
        self.ignore_bits(src, 1)
    }

    /// Ignores the specified number of bits from the stream or returns an error.
    pub fn ignore_bits(&mut self, src: &mut BufStream, num_bits: u32) -> (r: Result<(), Error>)
        requires
            old(self).consistent(old(src)),
        ensures
            final(src).data() == old(src).data(),
            old(self).bit_pos(old(src)) + num_bits <= 8 * old(src).data().len() <==> r is Ok,
            r is Ok ==> final(self).bit_pos(final(src)) == old(self).bit_pos(old(src)) + num_bits
                && final(self).consistent(final(src)),
            r is Ok && old(self).bits_left() <= 7 ==> final(self).bits_left() <= 7,
            r matches Err(e) ==> e == eof(),
    {
        let ghost s = src.data();
        let ghost p0 = self.bit_pos(src);
        proof {
            src.lemma_position_bound();
            lemma2_to64();
        }
        let n0 = self.n_bits_left;
        if num_bits <= n0 {
            let nl = n0 - num_bits;
            proof {
                let valid = (self.bits as nat) % pow2(n0 as nat);
                lemma_take(s, p0, n0 as nat, num_bits as nat, valid);
                lemma_mod_pow2_mod(self.bits as nat, nl as nat, n0 as nat);
            }
            self.n_bits_left = nl;
        } else {
            let mut remaining = num_bits - n0;
            while remaining >= 8
                invariant
                    src.data() == s,
                    s == old(src).data(),
                    p0 == old(self).bit_pos(old(src)),
                    0 <= remaining <= num_bits - n0,
                    8 * src.position() == p0 + n0 + (num_bits - n0 - remaining),
                decreases remaining,
            {
                proof {
                    src.lemma_position_bound();
                }
                src.read_u8()?;
                remaining = remaining - 8;
            }
            proof {
                src.lemma_position_bound();
            }
            if remaining > 0 {
                let ghost before = src.position();
                proof {
                    src.lemma_position_bound();
                }
                let byte = src.read_u8()?;
                proof {
                    lemma_bits_val_byte_suffix(s, before as int, (8 - remaining) as nat);
                }
                self.bits = byte as u32;
                self.n_bits_left = 8 - remaining;
            } else {
                self.n_bits_left = 0;
            }
        }
        Ok(())
    }

    /// Reads up to 32 bits and interprets them as a signed two's complement integer, or returns an
    /// error.
    pub fn read_bits_leq32_signed(&mut self, src: &mut BufStream, num_bits: u32) -> (r: Result<i32, Error>)
        requires
            1 <= num_bits <= 32,
            old(self).consistent(old(src)),
        ensures
            final(src).data() == old(src).data(),
            old(self).bit_pos(old(src)) + num_bits <= 8 * old(src).data().len() <==> r is Ok,
            r matches Ok(v) ==> {
                &&& v == sign_extend(
                    bits_val(old(src).data(), old(self).bit_pos(old(src)), num_bits as nat) as int,
                    num_bits as nat,
                )
                &&& final(self).bit_pos(final(src)) == old(self).bit_pos(old(src)) + num_bits
                &&& final(self).consistent(final(src))
            },
            r is Ok && old(self).bits_left() <= 7 ==> final(self).bits_left() <= 7,
            r matches Err(e) ==> e == eof(),
    {
        let value = self.read_bits_leq32(src, num_bits)?;
        Ok(sign_extend_leq32_to_i32(value, num_bits))
    }

    /// Reads up to 64 bits and returns them as a u64, or returns an error if the source ends first.
    pub fn read_bits_leq64(&mut self, src: &mut BufStream, num_bits: u32) -> (r: Result<u64, Error>)
        requires
            num_bits <= 64,
            old(self).consistent(old(src)),
        ensures
            final(src).data() == old(src).data(),
            old(self).bit_pos(old(src)) + num_bits <= 8 * old(src).data().len() <==> r is Ok,
            r matches Ok(v) ==> {
                &&& v == bits_val(old(src).data(), old(self).bit_pos(old(src)), num_bits as nat)
                &&& final(self).bit_pos(final(src)) == old(self).bit_pos(old(src)) + num_bits
                &&& final(self).consistent(final(src))
            },
            r is Ok && old(self).bits_left() <= 7 ==> final(self).bits_left() <= 7,
            r matches Err(e) ==> e == eof(),
    {
        if num_bits > 32 {
            let ghost s = src.data();
            let ghost p0 = self.bit_pos(src);
            let shift = num_bits - 32;
            let upper = self.read_bits_leq32(src, 32)?;
            let lower = self.read_bits_leq32(src, shift)?;
            proof {
                lemma2_to64();
                vstd::arithmetic::power2::lemma2_to64_rest();
                lemma_bits_val_split(s, p0, 32, shift as nat);
                lemma_bits_val_bound(s, p0, num_bits as nat);
                lemma_pow2_pos(shift as nat);
                if shift < 32 {
                    vstd::arithmetic::power2::lemma_pow2_strictly_increases(shift as nat, 32);
                }
                if num_bits < 64 {
                    vstd::arithmetic::power2::lemma_pow2_strictly_increases(num_bits as nat, 64);
                }
                vstd::arithmetic::mul::lemma_mul_upper_bound(
                    upper as int,
                    0xffff_ffff,
                    pow2(shift as nat) as int,
                    pow2(32) as int,
                );
            }
            Ok((upper as u64) * pow2_u64(shift) + lower as u64)
        } else {
            let v = self.read_bits_leq32(src, num_bits)?;
            Ok(v as u64)
        }
    }

    /// Reads up to 64 bits and interprets them as a signed two's complement integer, or returns an
    /// error.
    pub fn read_bits_leq64_signed(&mut self, src: &mut BufStream, num_bits: u32) -> (r: Result<i64, Error>)
        requires
            1 <= num_bits <= 64,
            old(self).consistent(old(src)),
        ensures
            final(src).data() == old(src).data(),
            old(self).bit_pos(old(src)) + num_bits <= 8 * old(src).data().len() <==> r is Ok,
            r matches Ok(v) ==> {
                &&& v == sign_extend(
                    bits_val(old(src).data(), old(self).bit_pos(old(src)), num_bits as nat) as int,
                    num_bits as nat,
                )
                &&& final(self).bit_pos(final(src)) == old(self).bit_pos(old(src)) + num_bits
                &&& final(self).consistent(final(src))
            },
            r is Ok && old(self).bits_left() <= 7 ==> final(self).bits_left() <= 7,
            r matches Err(e) ==> e == eof(),
    {
        let value = self.read_bits_leq64(src, num_bits)?;
        Ok(sign_extend_leq64_to_i64(value, num_bits))
    }

    /// Reads a unary encoded integer: the number of 0 bits before the next 1 bit, which is consumed
    /// too. The count wraps around at 2^32, as a `u32` does.
    pub fn read_unary(&mut self, src: &mut BufStream) -> (r: Result<u32, Error>)
        requires
            old(self).consistent(old(src)),
        ensures
            final(src).data() == old(src).data(),
            first_one(old(src).data(), old(self).bit_pos(old(src))) < 8 * old(src).data().len()
                <==> r is Ok,
            r matches Ok(v) ==> {
                let one = first_one(old(src).data(), old(self).bit_pos(old(src)));
                &&& v as int == (one - old(self).bit_pos(old(src))) % 0x1_0000_0000
                &&& final(self).bit_pos(final(src)) == one + 1
                &&& final(self).consistent(final(src))
            },
            r is Ok && old(self).bits_left() <= 7 ==> final(self).bits_left() <= 7,
            r matches Err(e) ==> e == eof(),
    {
        let ghost s = src.data();
        let ghost p0 = self.bit_pos(src);
        let ghost mut count: int = 0;
        let mut num: u32 = 0;
        proof {
            src.lemma_position_bound();
        }
        loop
            invariant_except_break
                src.data() == s,
                s == old(src).data(),
                p0 == old(self).bit_pos(old(src)),
                p0 >= 0,
                self.consistent(src),
                self.bit_pos(src) == p0 + count,
                count >= 0,
                num as int == count % 0x1_0000_0000,
                first_one(s, p0) == first_one(s, p0 + count),
                src.position() <= s.len(),
                old(self).bits_left() <= 7 ==> self.bits_left() <= 7,
            ensures
                old(self).bits_left() <= 7 ==> self.bits_left() <= 7,
                src.data() == s,
                self.consistent(src),
                first_one(s, p0) < 8 * s.len(),
                self.bit_pos(src) == first_one(s, p0) + 1,
                num as int == (first_one(s, p0) - p0) % 0x1_0000_0000,
            decreases 8 * s.len() - self.bit_pos(src),
        {
            let ghost before = self.bit_pos(src);
            let bit = self.read_bit(src)?;
            if bit {
                assert(first_one(s, before) == before);
                break;
            }
            assert(first_one(s, before) == first_one(s, before + 1));
            proof {
                count = count + 1;
            }
            num = num.wrapping_add(1);
            proof {
                src.lemma_position_bound();
            }
        }
        Ok(num)
    }

    /// Reads up to 8 bits, keeping any extra bits of a newly read byte for later reads.
    pub fn read_bits_leq8(&mut self, src: &mut BufStream, num_bits: u32) -> (r: Result<u32, Error>)
        requires
            num_bits <= 8,
            old(self).consistent(old(src)),
        ensures
            final(src).data() == old(src).data(),
            old(self).bit_pos(old(src)) + num_bits <= 8 * old(src).data().len() <==> r is Ok,
            r matches Ok(v) ==> {
                &&& v == bits_val(old(src).data(), old(self).bit_pos(old(src)), num_bits as nat)
                &&& final(self).bit_pos(final(src)) == old(self).bit_pos(old(src)) + num_bits
                &&& final(self).consistent(final(src))
                &&& final(self).bits_left() + num_bits <= 16
                &&& final(self).cached() as nat % pow2((final(self).bits_left() + num_bits) as nat)
                    == bits_val(
                    old(src).data(),
                    old(self).bit_pos(old(src)),
                    (final(self).bits_left() + num_bits) as nat,
                )
            },
            r matches Err(e) ==> e == eof(),
    {
        let ghost s = src.data();
        let ghost p0 = self.bit_pos(src);
        proof {
            src.lemma_position_bound();
            lemma2_to64();
        }
        if self.n_bits_left < num_bits {
            let ghost before = src.position();
            let n0 = self.n_bits_left;
            let byte = src.read_u8()?;
            let old_valid = self.bits % pow2_u32(n0);
            proof {
                lemma_bits_val_byte(s, before as int);
                lemma_bits_val_split(s, p0, n0 as nat, 8);
                lemma_pow2_adds(n0 as nat, 8);
                lemma_bits_val_bound(s, p0, n0 as nat);
                if n0 > 0 {
                    assert(old_valid == bits_val(s, p0, n0 as nat));
                }
            }
            self.bits = old_valid * 256 + byte as u32;
            self.n_bits_left = n0 + 8;
            proof {
                lemma_pow2_pos((n0 + 8) as nat);
                vstd::arithmetic::power2::lemma_pow2_strictly_increases((n0 + 8) as nat, 32);
                vstd::arithmetic::div_mod::lemma_small_mod(self.bits as nat, pow2((n0 + 8) as nat));
            }
        }
        let ghost p1 = p0;
        let n1 = self.n_bits_left;
        let nl = n1 - num_bits;
        let valid = self.bits % pow2_u32(n1);
        let res = valid / pow2_u32(nl);
        proof {
            lemma_take(s, p1, n1 as nat, num_bits as nat, valid as nat);
            lemma_mod_pow2_mod(self.bits as nat, nl as nat, n1 as nat);
        }
        self.n_bits_left = nl;
        Ok(res)
    }

    /// Reads a Huffman code with `table` and returns the decoded value and the code's length.
    ///
    /// Bits of the last look-up that lie past the end of the code stay kept for later reads.
    /// Where the table's longest code is longer than `lim_bits`, no more than `lim_bits` bits are
    /// read; a code that is not complete within them is an error, and the bits read stay consumed.
    #[verifier::rlimit(40)]
    pub fn read_huffman(
        &mut self,
        src: &mut BufStream,
        table: &HuffmanTable<H8>,
        lim_bits: u32,
    ) -> (r: Result<(u8, u32), Error>)
        requires
            lim_bits > 0,
            huffman_table_wf(table),
            old(self).consistent(old(src)),
        ensures
            final(src).data() == old(src).data(),
            match huffman_decode(
                table,
                old(src).data(),
                old(self).bit_pos(old(src)),
                lim_bits as nat,
            ) {
                Ok((v, len, end)) => r matches Ok((v2, len2)) && v2 == v && len2 == len
                    && final(self).bit_pos(final(src)) == end && final(self).consistent(final(src)),
                Err(err) => r == Err::<(u8, u32), Error>(err),
            },
    {
        let ghost s = src.data();
        let ghost p = self.bit_pos(src);
        let ghost e = table.data@;
        let ghost lim = lim_bits as nat;
        let init = table.n_init_bits;
        proof {
            lemma_pow2_le_256(init as nat);
        }
        let mut n_bits: u32;
        let mut code_len: u32;
        let mut idx: usize;
        if table.n_table_bits <= lim_bits || init < lim_bits {
            // Follow jumps until a value entry; where the table's longest code is longer than
            // the limit, stop at the limit.
            let limited = lim_bits < table.n_table_bits;
            let first = self.read_bits_leq8(src, init)?;
            proof {
                lemma_bits_val_bound(s, p, init as nat);
            }
            n_bits = init;
            code_len = init;
            idx = first as usize;
            let mut ent = table.data[idx];
            while ent.is_jump() && (!limited || code_len < lim_bits)
                invariant
                    src.data() == s,
                    s == old(src).data(),
                    p == old(self).bit_pos(old(src)),
                    huffman_table_wf(table),
                    e == table.data@,
                    lim == lim_bits,
                    0 <= p,
                    0 <= idx < e.len(),
                    ent == e[idx as int],
                    n_bits <= 8,
                    n_bits <= code_len,
                    code_len <= 8 * (idx + 1),
                    limited ==> code_len <= lim_bits,
                    limited == (lim_bits < table.n_table_bits),
                    self.consistent(src),
                    self.bit_pos(src) - n_bits >= p,
                    self.bits_left() + n_bits <= 16,
                    self.cached() as nat % pow2((self.bits_left() + n_bits) as nat) == bits_val(
                        s,
                        self.bit_pos(src) - n_bits,
                        (self.bits_left() + n_bits) as nat,
                    ),
                    huffman_lookup(table, s, p, lim) == huffman_walk(
                        e,
                        s,
                        idx as int,
                        self.bit_pos(src),
                        n_bits as nat,
                        code_len as nat,
                        lim,
                        limited,
                    ),
                decreases e.len() - idx,
            {
                let full = ent.next_len();
                let n: u32 = if limited && lim_bits - code_len < full {
                    lim_bits - code_len
                } else {
                    full
                };
                let ghost bp = self.bit_pos(src);
                let v = self.read_bits_leq8(src, n)?;
                let pw = pow2_u32(full - n);
                proof {
                    lemma_bits_val_bound(s, bp, n as nat);
                    lemma_pow2_adds(n as nat, (full - n) as nat);
                    lemma_pow2_pos((full - n) as nat);
                    lemma_pow2_le_256(full as nat);
                    vstd::arithmetic::mul::lemma_mul_strict_inequality(
                        v as int,
                        pow2(n as nat) as int,
                        pw as int,
                    );
                    vstd::arithmetic::mul::lemma_mul_is_commutative(v as int, pw as int);
                    vstd::arithmetic::mul::lemma_mul_is_commutative(
                        pow2(n as nat) as int,
                        pw as int,
                    );
                }
                let prefix = v * pw;
                idx = ent.jump_offset() + prefix as usize;
                ent = table.data[idx];
                n_bits = n;
                code_len = code_len + n;
            }
        } else {
            // The first look-up alone reaches the limit: read up to it, as the high bits of the
            // look-up.
            let v = self.read_bits_leq8(src, lim_bits)?;
            let pw = pow2_u32(init - lim_bits);
            proof {
                lemma_bits_val_bound(s, p, lim);
                lemma_pow2_adds(lim, (init - lim) as nat);
                lemma_pow2_pos((init - lim) as nat);
                vstd::arithmetic::mul::lemma_mul_strict_inequality(
                    v as int,
                    pow2(lim) as int,
                    pw as int,
                );
                vstd::arithmetic::mul::lemma_mul_is_commutative(v as int, pw as int);
                vstd::arithmetic::mul::lemma_mul_is_commutative(pow2(lim) as int, pw as int);
            }
            idx = (v * pw) as usize;
            n_bits = lim_bits;
            code_len = lim_bits;
        }
        let ghost bp = self.bit_pos(src);
        let ent = table.data[idx];
        let clen = ent.code_len();
        if ent.is_value() && n_bits >= clen {
            // Bits read past the end of the code are kept for later reads.
            let extra = n_bits - clen;
            let nl = self.n_bits_left;
            proof {
                let c = self.cached() as nat;
                lemma_mod_pow2_mod(c, (nl + extra) as nat, (nl + n_bits) as nat);
                lemma_take(
                    s,
                    bp - n_bits,
                    (nl + n_bits) as nat,
                    (n_bits - extra) as nat,
                    bits_val(s, bp - n_bits, (nl + n_bits) as nat),
                );
            }
            self.n_bits_left = nl + extra;
            Ok((ent.into_value(), code_len - extra))
        } else {
            Err(Error::IoError(IoErrorKind::Other))
        }
    }

}

/// A `BitStreamLtr` reads bits, most significant first, from an owned `BufStream`.
pub struct BitStreamLtr<'a> {
    inner: BufStream<'a>,
    reader: BitReaderLtr,
}

impl<'a> BitStreamLtr<'a> {
    /// The reader and its source agree: the kept bits, at most two bytes of them, are the bits
    /// just before the source's read position.
    pub closed spec fn valid(&self) -> bool {
        self.reader.consistent(&self.inner)
    }

    /// The number of bits read from the source but not yet consumed.
    pub closed spec fn kept_bits(&self) -> nat {
        self.reader.bits_left()
    }

    /// The reader and its source agree, and at most a partial byte is kept.
    pub open spec fn wf(&self) -> bool {
        &&& self.valid()
        &&& self.kept_bits() <= 7
    }

    /// The bytes being read.
    pub closed spec fn data(&self) -> Seq<u8> {
        self.inner.data()
    }

    /// The index, in bits, of the next bit to be read.
    pub closed spec fn bit_pos(&self) -> int {
        self.reader.bit_pos(&self.inner)
    }

    /// The read position lies within the data.
    pub proof fn lemma_bit_pos_bound(&self)
        requires
            self.valid(),
        ensures
            0 <= self.bit_pos() <= 8 * self.data().len(),
    {
        self.inner.lemma_position_bound();
    }

    /// The number of bits not yet read.
    pub open spec fn bits_remaining(&self) -> int {
        8 * self.data().len() - self.bit_pos()
    }

    /// Instantiates a new `BitStreamLtr` starting at the current byte of `inner`.
    pub fn new(inner: BufStream<'a>) -> (r: Self)
        ensures
            r.wf(),
            r.data() == inner.data(),
            r.bit_pos() == 8 * inner.position(),
    {
        BitStreamLtr { inner, reader: BitReaderLtr::new() }
    }

    /// Returns the inner byte stream, positioned at the first byte not touched by a bit read.
    pub fn into_inner(self) -> (r: BufStream<'a>)
        requires
            self.wf(),
        ensures
            r.data() == self.data(),
            8 * r.position() - 8 < self.bit_pos() <= 8 * r.position(),
    {
        self.inner
    }

    /// Discards any kept bits so the next read starts at a byte boundary.
    pub fn realign(&mut self)
        requires
            old(self).wf(),
        ensures
            final(self).wf(),
            final(self).data() == old(self).data(),
            8 * old(self).bit_pos() <= 8 * final(self).bit_pos() < 8 * old(self).bit_pos() + 64,
            final(self).bit_pos() % 8 == 0,
    {
        self.reader.realign();
    }

    /// Ignores one bit from the stream or returns an error.
    pub fn ignore_bit(&mut self) -> (r: Result<(), Error>)
        requires
            old(self).wf(),
        ensures
            final(self).data() == old(self).data(),
            old(self).bit_pos() + 1 <= 8 * old(self).data().len() <==> r is Ok,
            r is Ok ==> final(self).wf() && final(self).bit_pos() == old(self).bit_pos() + 1,
            r matches Err(e) ==> e == eof(),
    {
        self.reader.ignore_bits(&mut self.inner, 1)
    }

    /// Ignores the specified number of bits from the stream or returns an error.
    pub fn ignore_bits(&mut self, bit_width: u32) -> (r: Result<(), Error>)
        requires
            old(self).valid(),
        ensures
            final(self).data() == old(self).data(),
            old(self).bit_pos() + bit_width <= 8 * old(self).data().len() <==> r is Ok,
            r is Ok ==> final(self).valid() && final(self).bit_pos() == old(self).bit_pos() + bit_width,
            r is Ok && old(self).wf() ==> final(self).wf(),
            r matches Err(e) ==> e == eof(),
    {
        self.reader.ignore_bits(&mut self.inner, bit_width)
    }

    /// Reads a single bit as a boolean value or returns an error.
    pub fn read_bit(&mut self) -> (r: Result<bool, Error>)
        requires
            old(self).valid(),
        ensures
            final(self).data() == old(self).data(),
            old(self).bit_pos() < 8 * old(self).data().len() <==> r is Ok,
            r matches Ok(b) ==> final(self).valid() && final(self).bit_pos() == old(self).bit_pos() + 1
                && b == (bit_at(old(self).data(), old(self).bit_pos()) == 1),
            r is Ok && old(self).wf() ==> final(self).wf(),
            r matches Err(e) ==> e == eof(),
    {
        self.reader.read_bit(&mut self.inner)
    }

    /// Reads up to 32 bits and returns them as a u32, or returns an error.
    pub fn read_bits_leq32(&mut self, bit_width: u32) -> (r: Result<u32, Error>)
        requires
            old(self).valid(),
            bit_width <= 32,
        ensures
            final(self).data() == old(self).data(),
            old(self).bit_pos() + bit_width <= 8 * old(self).data().len() <==> r is Ok,
            r is Ok && old(self).wf() ==> final(self).wf(),
            r matches Ok(v) ==> final(self).valid()
                && final(self).bit_pos() == old(self).bit_pos() + bit_width
                && v == bits_val(old(self).data(), old(self).bit_pos(), bit_width as nat),
            r matches Err(e) ==> e == eof(),
    {
        self.reader.read_bits_leq32(&mut self.inner, bit_width)
    }

    /// Reads up to 32 bits and interprets them as a signed two's complement integer, or returns
    /// an error.
    pub fn read_bits_leq32_signed(&mut self, bit_width: u32) -> (r: Result<i32, Error>)
        requires
            old(self).wf(),
            1 <= bit_width <= 32,
        ensures
            final(self).data() == old(self).data(),
            old(self).bit_pos() + bit_width <= 8 * old(self).data().len() <==> r is Ok,
            r matches Ok(v) ==> final(self).wf()
                && final(self).bit_pos() == old(self).bit_pos() + bit_width
                && v == sign_extend(
                    bits_val(old(self).data(), old(self).bit_pos(), bit_width as nat) as int,
                    bit_width as nat,
                ),
            r matches Err(e) ==> e == eof(),
    {
        self.reader.read_bits_leq32_signed(&mut self.inner, bit_width)
    }

    /// Reads up to 64 bits and returns them as a u64, or returns an error.
    pub fn read_bits_leq64(&mut self, bit_width: u32) -> (r: Result<u64, Error>)
        requires
            old(self).wf(),
            bit_width <= 64,
        ensures
            final(self).data() == old(self).data(),
            old(self).bit_pos() + bit_width <= 8 * old(self).data().len() <==> r is Ok,
            r matches Ok(v) ==> final(self).wf()
                && final(self).bit_pos() == old(self).bit_pos() + bit_width
                && v == bits_val(old(self).data(), old(self).bit_pos(), bit_width as nat),
            r matches Err(e) ==> e == eof(),
    {
        self.reader.read_bits_leq64(&mut self.inner, bit_width)
    }

    /// Reads up to 64 bits and interprets them as a signed two's complement integer, or returns
    /// an error.
    pub fn read_bits_leq64_signed(&mut self, bit_width: u32) -> (r: Result<i64, Error>)
        requires
            old(self).wf(),
            1 <= bit_width <= 64,
        ensures
            final(self).data() == old(self).data(),
            old(self).bit_pos() + bit_width <= 8 * old(self).data().len() <==> r is Ok,
            r matches Ok(v) ==> final(self).wf()
                && final(self).bit_pos() == old(self).bit_pos() + bit_width
                && v == sign_extend(
                    bits_val(old(self).data(), old(self).bit_pos(), bit_width as nat) as int,
                    bit_width as nat,
                ),
            r matches Err(e) ==> e == eof(),
    {
        self.reader.read_bits_leq64_signed(&mut self.inner, bit_width)
    }

    /// Reads a unary encoded integer, or returns an error.
    pub fn read_unary(&mut self) -> (r: Result<u32, Error>)
        requires
            old(self).wf(),
        ensures
            final(self).data() == old(self).data(),
            first_one(old(self).data(), old(self).bit_pos()) < 8 * old(self).data().len() <==> r is Ok,
            r matches Ok(v) ==> final(self).wf()
                && final(self).bit_pos() == first_one(old(self).data(), old(self).bit_pos()) + 1
                && v as int == (first_one(old(self).data(), old(self).bit_pos()) - old(self).bit_pos())
                    % 0x1_0000_0000,
            r matches Err(e) ==> e == eof(),
    {
        self.reader.read_unary(&mut self.inner)
    }

    /// Reads a Huffman code with `table` and returns the decoded value and the code's length.
    ///
    /// Where the table's longest code is longer than `lim_bits`, no more than `lim_bits` bits are
    /// read, and a code that is not complete within them is an error. Bits of the last look-up
    /// that lie past the end of the code are kept for later reads.
    pub fn read_huffman(&mut self, table: &HuffmanTable<H8>, lim_bits: u32) -> (r: Result<
        (u8, u32),
        Error,
    >)
        requires
            old(self).valid(),
            lim_bits > 0,
            huffman_table_wf(table),
        ensures
            final(self).data() == old(self).data(),
            match huffman_decode(table, old(self).data(), old(self).bit_pos(), lim_bits as nat) {
                Ok((v, len, end)) => r matches Ok((v2, len2)) && v2 == v && len2 == len
                    && final(self).valid() && final(self).bit_pos() == end,
                Err(err) => r == Err::<(u8, u32), Error>(err),
            },
    {
        self.reader.read_huffman(&mut self.inner, table, lim_bits)
    }
}

} // verus!
