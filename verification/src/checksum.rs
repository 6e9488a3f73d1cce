//! Cyclic redundancy checks: CRC-8 (polynomial 0x07) over FLAC frame headers, CRC-16 (polynomial
//! 0x8005) over whole FLAC frames, and CRC-32 (polynomial 0x04c11db7) over Ogg pages. All are
//! computed most significant bit first, without reflection or a final xor.

use vstd::prelude::*;

verus! {

/// One shift of the CRC-8 register.
pub open spec fn crc8_bit(c: u8) -> u8 {
    if c >= 0x80 {
        ((c * 2) % 0x100) as u8 ^ 0x07
    } else {
        (c * 2) as u8
    }
}

/// `k` shifts of the CRC-8 register.
pub open spec fn crc8_shifts(c: u8, k: nat) -> u8
    decreases k,
{
    if k == 0 {
        c
    } else {
        crc8_bit(crc8_shifts(c, (k - 1) as nat))
    }
}

/// The CRC-8 register after the bytes of `s`, starting from `init`.
pub open spec fn crc8(init: u8, s: Seq<u8>) -> u8
    decreases s.len(),
{
    if s.len() == 0 {
        init
    } else {
        crc8_shifts(crc8(init, s.drop_last()) ^ s.last(), 8)
    }
}

/// One shift of the CRC-16 register.
pub open spec fn crc16_bit(c: u16) -> u16 {
    if c >= 0x8000 {
        ((c * 2) % 0x1_0000) as u16 ^ 0x8005
    } else {
        (c * 2) as u16
    }
}

/// `k` shifts of the CRC-16 register.
pub open spec fn crc16_shifts(c: u16, k: nat) -> u16
    decreases k,
{
    if k == 0 {
        c
    } else {
        crc16_bit(crc16_shifts(c, (k - 1) as nat))
    }
}

/// The CRC-16 register after the bytes of `s`, starting from `init`.
pub open spec fn crc16(init: u16, s: Seq<u8>) -> u16
    decreases s.len(),
{
    if s.len() == 0 {
        init
    } else {
        crc16_shifts(crc16(init, s.drop_last()) ^ ((s.last() as u16) * 0x100) as u16, 8)
    }
}

/// Computing a CRC over two pieces one after the other is computing it over both.
pub proof fn lemma_crc8_append(init: u8, a: Seq<u8>, b: Seq<u8>)
    ensures
        crc8(crc8(init, a), b) == crc8(init, a + b),
    decreases b.len(),
{
    if b.len() > 0 {
        lemma_crc8_append(init, a, b.drop_last());
        assert((a + b).drop_last() =~= a + b.drop_last());
    } else {
        assert(a + b =~= a);
    }
}

/// Computing a CRC over two pieces one after the other is computing it over both.
pub proof fn lemma_crc16_append(init: u16, a: Seq<u8>, b: Seq<u8>)
    ensures
        crc16(crc16(init, a), b) == crc16(init, a + b),
    decreases b.len(),
{
    if b.len() > 0 {
        lemma_crc16_append(init, a, b.drop_last());
        assert((a + b).drop_last() =~= a + b.drop_last());
    } else {
        assert(a + b =~= a);
    }
}

/// A CRC-8 (polynomial 0x07) computation in progress.
pub struct Crc8Ccitt {
    state: u8,
}

impl Crc8Ccitt {
    /// The current value of the register.
    pub closed spec fn value(&self) -> u8 {
        self.state
    }

    /// Instantiates a CRC-8 computation with the given initial register value.
    pub fn new(state: u8) -> (r: Self)
        ensures
            r.value() == state,
    {
        Crc8Ccitt { state }
    }

    /// Returns the checksum of the bytes processed so far.
    pub fn crc(&self) -> (r: u8)
        ensures
            r == self.value(),
    {
        self.state
    }

    /// Processes one byte.
    pub fn process_byte(&mut self, byte: u8)
        ensures
            final(self).value() == crc8(old(self).value(), seq![byte]),
    {
        let mut c = self.state ^ byte;
        let mut k: u32 = 0;
        while k < 8
            invariant
                k <= 8,
                c == crc8_shifts(old(self).value() ^ byte, k as nat),
            decreases 8 - k,
        {
            c = if c >= 0x80 {
                ((c as u16 * 2) % 0x100) as u8 ^ 0x07
            } else {
                c * 2
            };
            k = k + 1;
        }
        proof {
            let s = seq![byte];
            assert(s.drop_last() =~= Seq::<u8>::empty());
            assert(s.last() == byte);
            reveal_with_fuel(crc8, 2);
            reveal_with_fuel(crc16, 2);
        }
        self.state = c;
    }

    /// Processes the bytes of `buf` in order.
    pub fn process_buf_bytes(&mut self, buf: &[u8])
        ensures
            final(self).value() == crc8(old(self).value(), buf@),
    {
        let mut i: usize = 0;
        while i < buf.len()
            invariant
                i <= buf@.len(),
                self.value() == crc8(old(self).value(), buf@.take(i as int)),
            decreases buf@.len() - i,
        {
            let ghost before = self.value();
            self.process_byte(buf[i]);
            proof {
                lemma_crc8_append(old(self).value(), buf@.take(i as int), seq![buf@[i as int]]);
                assert(buf@.take(i as int) + seq![buf@[i as int]] =~= buf@.take(i + 1));
            }
            i = i + 1;
        }
        assert(buf@.take(i as int) =~= buf@);
    }
}

/// A CRC-16 (polynomial 0x8005) computation in progress.
pub struct Crc16 {
    state: u16,
}

impl Crc16 {
    /// The current value of the register.
    pub closed spec fn value(&self) -> u16 {
        self.state
    }

    /// Instantiates a CRC-16 computation with the given initial register value.
    pub fn new(state: u16) -> (r: Self)
        ensures
            r.value() == state,
    {
        Crc16 { state }
    }

    /// Returns the checksum of the bytes processed so far.
    pub fn crc(&self) -> (r: u16)
        ensures
            r == self.value(),
    {
        self.state
    }

    /// Processes one byte.
    pub fn process_byte(&mut self, byte: u8)
        ensures
            final(self).value() == crc16(old(self).value(), seq![byte]),
    {
        let mut c = self.state ^ (byte as u16 * 0x100);
        let mut k: u32 = 0;
        while k < 8
            invariant
                k <= 8,
                c == crc16_shifts(old(self).value() ^ ((byte as u16) * 0x100) as u16, k as nat),
            decreases 8 - k,
        {
            c = if c >= 0x8000 {
                ((c as u32 * 2) % 0x1_0000) as u16 ^ 0x8005
            } else {
                c * 2
            };
            k = k + 1;
        }
        proof {
            let s = seq![byte];
            assert(s.drop_last() =~= Seq::<u8>::empty());
            assert(s.last() == byte);
            reveal_with_fuel(crc8, 2);
            reveal_with_fuel(crc16, 2);
        }
        self.state = c;
    }

    /// Processes the bytes of `buf` in order.
    pub fn process_buf_bytes(&mut self, buf: &[u8])
        ensures
            final(self).value() == crc16(old(self).value(), buf@),
    {
        let mut i: usize = 0;
        while i < buf.len()
            invariant
                i <= buf@.len(),
                self.value() == crc16(old(self).value(), buf@.take(i as int)),
            decreases buf@.len() - i,
        {
            self.process_byte(buf[i]);
            proof {
                lemma_crc16_append(old(self).value(), buf@.take(i as int), seq![buf@[i as int]]);
                assert(buf@.take(i as int) + seq![buf@[i as int]] =~= buf@.take(i + 1));
            }
            i = i + 1;
        }
        assert(buf@.take(i as int) =~= buf@);
    }
}

/// One shift of the CRC-32 register.
pub open spec fn crc32_bit(c: u32) -> u32 {
    if c >= 0x8000_0000 {
        ((c * 2) % 0x1_0000_0000) as u32 ^ 0x04c1_1db7
    } else {
        (c * 2) as u32
    }
}

/// `k` shifts of the CRC-32 register.
pub open spec fn crc32_shifts(c: u32, k: nat) -> u32
    decreases k,
{
    if k == 0 {
        c
    } else {
        crc32_bit(crc32_shifts(c, (k - 1) as nat))
    }
}

/// The CRC-32 register after the bytes of `s`, starting from `init`.
pub open spec fn crc32(init: u32, s: Seq<u8>) -> u32
    decreases s.len(),
{
    if s.len() == 0 {
        init
    } else {
        crc32_shifts(crc32(init, s.drop_last()) ^ ((s.last() as u32) * 0x100_0000) as u32, 8)
    }
}

/// Computing a CRC over two pieces one after the other is computing it over both.
pub proof fn lemma_crc32_append(init: u32, a: Seq<u8>, b: Seq<u8>)
    ensures
        crc32(crc32(init, a), b) == crc32(init, a + b),
    decreases b.len(),
{
    if b.len() > 0 {
        lemma_crc32_append(init, a, b.drop_last());
        assert((a + b).drop_last() =~= a + b.drop_last());
    } else {
        assert(a + b =~= a);
    }
}

/// A CRC-32 (polynomial 0x04c11db7) computation in progress.
pub struct Crc32 {
    state: u32,
}

impl Crc32 {
    /// The current value of the register.
    pub closed spec fn value(&self) -> u32 {
        self.state
    }

    /// Instantiates a CRC-32 computation with the given initial register value.
    pub fn new(state: u32) -> (r: Self)
        ensures
            r.value() == state,
    {
        Crc32 { state }
    }

    /// Returns the checksum of the bytes processed so far.
    pub fn crc(&self) -> (r: u32)
        ensures
            r == self.value(),
    {
        self.state
    }

    /// Processes one byte.
    pub fn process_byte(&mut self, byte: u8)
        ensures
            final(self).value() == crc32(old(self).value(), seq![byte]),
    {
        let mut c = self.state ^ (byte as u32 * 0x100_0000);
        let mut k: u32 = 0;
        while k < 8
            invariant
                k <= 8,
                c == crc32_shifts(old(self).value() ^ ((byte as u32) * 0x100_0000) as u32, k as nat),
            decreases 8 - k,
        {
            c = if c >= 0x8000_0000 {
                ((c as u64 * 2) % 0x1_0000_0000) as u32 ^ 0x04c1_1db7
            } else {
                c * 2
            };
            k = k + 1;
        }
        proof {
            let s = seq![byte];
            assert(s.drop_last() =~= Seq::<u8>::empty());
            assert(s.last() == byte);
            reveal_with_fuel(crc32, 2);
        }
        self.state = c;
    }

    /// Processes the bytes of `buf` in order.
    pub fn process_buf_bytes(&mut self, buf: &[u8])
        ensures
            final(self).value() == crc32(old(self).value(), buf@),
    {
        let mut i: usize = 0;
        while i < buf.len()
            invariant
                i <= buf@.len(),
                self.value() == crc32(old(self).value(), buf@.take(i as int)),
            decreases buf@.len() - i,
        {
            self.process_byte(buf[i]);
            proof {
                lemma_crc32_append(old(self).value(), buf@.take(i as int), seq![buf@[i as int]]);
                assert(buf@.take(i as int) + seq![buf@[i as int]] =~= buf@.take(i + 1));
            }
            i = i + 1;
        }
        assert(buf@.take(i as int) =~= buf@);
    }
}

/// The CRC-8 generator polynomial is x^8 + x^2 + x + 1: one shift of the register doubles it,
/// and a bit carried out of the top is fed back as 0x07.
pub proof fn lemma_crc8_register_step(c: u8)
    ensures
        crc8_shifts(c, 1) == if c >= 0x80 {
            ((2 * c - 0x100) as u8) ^ 0x07u8
        } else {
            (2 * c) as u8
        },
{
    reveal_with_fuel(crc8_shifts, 2);
}

/// The CRC-16 generator polynomial is x^16 + x^15 + x^2 + 1: one shift of the register doubles
/// it, and a bit carried out of the top is fed back as 0x8005.
pub proof fn lemma_crc16_register_step(c: u16)
    ensures
        crc16_shifts(c, 1) == if c >= 0x8000 {
            ((2 * c - 0x1_0000) as u16) ^ 0x8005u16
        } else {
            (2 * c) as u16
        },
{
    reveal_with_fuel(crc16_shifts, 2);
}

/// The CRC-32 generator polynomial is 0x04c11db7: one shift of the register doubles it, and a
/// bit carried out of the top is fed back as 0x04c11db7.
pub proof fn lemma_crc32_register_step(c: u32)
    ensures
        crc32_shifts(c, 1) == if c >= 0x8000_0000 {
            ((2 * c - 0x1_0000_0000) as u32) ^ 0x04c1_1db7u32
        } else {
            (2 * c) as u32
        },
{
    reveal_with_fuel(crc32_shifts, 2);
}

} // verus!
