//! `BufStream` is a byte stream backed by an in-memory buffer.

use vstd::prelude::*;
use crate::errors::{Error, IoErrorKind};

verus! {

/// The unsigned integer whose big-endian base-256 digits are the bytes of `s`.
pub open spec fn be_val(s: Seq<u8>) -> nat
    decreases s.len(),
{
    if s.len() == 0 {
        0
    } else {
        be_val(s.drop_last()) * 256 + s.last() as nat
    }
}

/// The unsigned integer whose little-endian base-256 digits are the bytes of `s`.
pub open spec fn le_val(s: Seq<u8>) -> nat
    decreases s.len(),
{
    if s.len() == 0 {
        0
    } else {
        s[0] as nat + 256 * le_val(s.drop_first())
    }
}

/// The error returned when a read would go past the end of the buffer.
pub open spec fn eof() -> Error {
    Error::IoError(IoErrorKind::UnexpectedEof)
}

/// The position at which a scan for `pattern`, checked every `align` bytes with its end at `i`,
/// stops: the first candidate end at which the pattern matches, or the first one at or past `end`.
pub open spec fn scan_stop(s: Seq<u8>, pattern: Seq<u8>, align: nat, end: int, i: int) -> int
    decreases (if i < end { end - i } else { 0 }),
{
    if align == 0 || i >= end {
        i
    } else if s.subrange(i - pattern.len(), i) == pattern {
        i
    } else {
        scan_stop(s, pattern, align, end, i + align)
    }
}

/// `BufStream` is a stream backed by a buffer.
pub struct BufStream<'a> {
    buf: &'a [u8],
    pos: usize,
}

impl<'a> BufStream<'a> {
    #[verifier::type_invariant]
    spec fn inv(self) -> bool {
        self.pos <= self.buf@.len()
    }

    /// The bytes of the underlying buffer.
    pub closed spec fn data(&self) -> Seq<u8> {
        self.buf@
    }

    /// The index of the next byte to be read.
    pub closed spec fn position(&self) -> nat {
        if self.pos <= self.buf@.len() {
            self.pos as nat
        } else {
            self.buf@.len()
        }
    }

    /// The read position never passes the end of the buffer.
    pub proof fn lemma_position_bound(&self)
        ensures
            self.position() <= self.data().len(),
    {
    }

    /// Instantiates a new `BufStream` reading from the start of `buf`.
    pub fn new(buf: &'a [u8]) -> (s: Self)
        ensures
            s.data() == buf@,
            s.position() == 0,
    {
        BufStream { buf, pos: 0 }
    }

    /// Reads a single byte from the stream and returns it or an error.
    pub fn read_byte(&mut self) -> (r: Result<u8, Error>)
        ensures
            final(self).data() == old(self).data(),
            old(self).position() < old(self).data().len() <==> r is Ok,
            r matches Ok(b) ==> b == old(self).data()[old(self).position() as int]
                && final(self).position() == old(self).position() + 1,
            r matches Err(e) ==> e == eof() && final(self).position() == old(self).position(),
    {
        proof { use_type_invariant(&*self); }
        if self.pos >= self.buf.len() {
            return Err(Error::IoError(IoErrorKind::UnexpectedEof));
        }
        self.pos = self.pos + 1;
        Ok(self.buf[self.pos - 1])
    }

    /// Reads a single unsigned byte from the stream and returns it or an error.
    pub fn read_u8(&mut self) -> (r: Result<u8, Error>)
        ensures
            final(self).data() == old(self).data(),
            old(self).position() < old(self).data().len() <==> r is Ok,
            r matches Ok(b) ==> b == old(self).data()[old(self).position() as int]
                && final(self).position() == old(self).position() + 1,
            r matches Err(e) ==> e == eof() && final(self).position() == old(self).position(),
    {
        self.read_byte()
    }

    /// Reads `n` bytes in read order, or fails without consuming anything.
    fn take_bytes(&mut self, n: usize) -> (r: Result<&'a [u8], Error>)
        ensures
            final(self).data() == old(self).data(),
            old(self).position() + n <= old(self).data().len() <==> r is Ok,
            r matches Ok(b) ==> b@ == old(self).data().subrange(
                old(self).position() as int,
                old(self).position() + n,
            ) && final(self).position() == old(self).position() + n,
            r matches Err(e) ==> e == eof() && final(self).position() == old(self).position(),
    {
        proof { use_type_invariant(&*self); }
        if n > self.buf.len() - self.pos {
            return Err(Error::IoError(IoErrorKind::UnexpectedEof));
        }
        let start = self.pos;
        self.pos = self.pos + n;
        Ok(&self.buf[start..start + n])
    }

    /// Reads two bytes from the stream and returns them in read-order or an error.
    pub fn read_double_bytes(&mut self) -> (r: Result<[u8; 2], Error>)
        ensures
            final(self).data() == old(self).data(),
            old(self).position() + 2 <= old(self).data().len() <==> r is Ok,
            r matches Ok(b) ==> b@ == old(self).data().subrange(
                old(self).position() as int,
                old(self).position() + 2int,
            ) && final(self).position() == old(self).position() + 2int,
            r matches Err(e) ==> e == eof() && final(self).position() == old(self).position(),
    {
        let b = self.take_bytes(2)?;
        let out = [b[0], b[1]];
        assert(out@ =~= b@);
        Ok(out)
    }

    /// Reads three bytes from the stream and returns them in read-order or an error.
    pub fn read_triple_bytes(&mut self) -> (r: Result<[u8; 3], Error>)
        ensures
            final(self).data() == old(self).data(),
            old(self).position() + 3 <= old(self).data().len() <==> r is Ok,
            r matches Ok(b) ==> b@ == old(self).data().subrange(
                old(self).position() as int,
                old(self).position() + 3int,
            ) && final(self).position() == old(self).position() + 3int,
            r matches Err(e) ==> e == eof() && final(self).position() == old(self).position(),
    {
        let b = self.take_bytes(3)?;
        let out = [b[0], b[1], b[2]];
        assert(out@ =~= b@);
        Ok(out)
    }

    /// Reads four bytes from the stream and returns them in read-order or an error.
    pub fn read_quad_bytes(&mut self) -> (r: Result<[u8; 4], Error>)
        ensures
            final(self).data() == old(self).data(),
            old(self).position() + 4 <= old(self).data().len() <==> r is Ok,
            r matches Ok(b) ==> b@ == old(self).data().subrange(
                old(self).position() as int,
                old(self).position() + 4int,
            ) && final(self).position() == old(self).position() + 4int,
            r matches Err(e) ==> e == eof() && final(self).position() == old(self).position(),
    {
        let b = self.take_bytes(4)?;
        let out = [b[0], b[1], b[2], b[3]];
        assert(out@ =~= b@);
        Ok(out)
    }

    /// Reads two bytes from the stream and interprets them as an unsigned 16-bit little-endian
    /// integer or returns an error.
    pub fn read_u16(&mut self) -> (r: Result<u16, Error>)
        ensures
            final(self).data() == old(self).data(),
            old(self).position() + 2int <= old(self).data().len() <==> r is Ok,
            r matches Ok(v) ==> v == le_val(old(self).data().subrange(
                old(self).position() as int,
                old(self).position() + 2int,
            )) && final(self).position() == old(self).position() + 2int,
            r matches Err(e) ==> e == eof() && final(self).position() == old(self).position(),
    {
        let b = self.read_double_bytes()?;
        proof {
            reveal_with_fuel(le_val, 3);
        }
        Ok((b[0] as u16) + (b[1] as u16) * 0x100)
    }

    /// Reads two bytes from the stream and interprets them as an unsigned 16-bit big-endian
    /// integer or returns an error.
    pub fn read_be_u16(&mut self) -> (r: Result<u16, Error>)
        ensures
            final(self).data() == old(self).data(),
            old(self).position() + 2int <= old(self).data().len() <==> r is Ok,
            r matches Ok(v) ==> v == be_val(old(self).data().subrange(
                old(self).position() as int,
                old(self).position() + 2int,
            )) && final(self).position() == old(self).position() + 2int,
            r matches Err(e) ==> e == eof() && final(self).position() == old(self).position(),
    {
        let b = self.read_double_bytes()?;
        proof {
            reveal_with_fuel(be_val, 3);
        }
        Ok((b[0] as u16) * 0x100 + (b[1] as u16))
    }

    /// Reads three bytes from the stream and interprets them as an unsigned 24-bit little-endian
    /// integer or returns an error.
    pub fn read_u24(&mut self) -> (r: Result<u32, Error>)
        ensures
            final(self).data() == old(self).data(),
            old(self).position() + 3int <= old(self).data().len() <==> r is Ok,
            r matches Ok(v) ==> v == le_val(old(self).data().subrange(
                old(self).position() as int,
                old(self).position() + 3int,
            )) && final(self).position() == old(self).position() + 3int,
            r matches Err(e) ==> e == eof() && final(self).position() == old(self).position(),
    {
        let b = self.read_triple_bytes()?;
        proof {
            reveal_with_fuel(le_val, 4);
        }
        Ok((b[0] as u32) + (b[1] as u32) * 0x100 + (b[2] as u32) * 0x10000)
    }

    /// Reads three bytes from the stream and interprets them as an unsigned 24-bit big-endian
    /// integer or returns an error.
    pub fn read_be_u24(&mut self) -> (r: Result<u32, Error>)
        ensures
            final(self).data() == old(self).data(),
            old(self).position() + 3int <= old(self).data().len() <==> r is Ok,
            r matches Ok(v) ==> v == be_val(old(self).data().subrange(
                old(self).position() as int,
                old(self).position() + 3int,
            )) && final(self).position() == old(self).position() + 3int,
            r matches Err(e) ==> e == eof() && final(self).position() == old(self).position(),
    {
        let b = self.read_triple_bytes()?;
        proof {
            reveal_with_fuel(be_val, 4);
        }
        Ok((b[0] as u32) * 0x10000 + (b[1] as u32) * 0x100 + (b[2] as u32))
    }

    /// Reads four bytes from the stream and interprets them as an unsigned 32-bit little-endian
    /// integer or returns an error.
    pub fn read_u32(&mut self) -> (r: Result<u32, Error>)
        ensures
            final(self).data() == old(self).data(),
            old(self).position() + 4int <= old(self).data().len() <==> r is Ok,
            r matches Ok(v) ==> v == le_val(old(self).data().subrange(
                old(self).position() as int,
                old(self).position() + 4int,
            )) && final(self).position() == old(self).position() + 4int,
            r matches Err(e) ==> e == eof() && final(self).position() == old(self).position(),
    {
        let b = self.read_quad_bytes()?;
        proof {
            reveal_with_fuel(le_val, 5);
        }
        Ok((b[0] as u32) + (b[1] as u32) * 0x100 + (b[2] as u32) * 0x10000 + (b[3] as u32) * 0x1000000)
    }

    /// Reads four bytes from the stream and interprets them as an unsigned 32-bit big-endian
    /// integer or returns an error.
    pub fn read_be_u32(&mut self) -> (r: Result<u32, Error>)
        ensures
            final(self).data() == old(self).data(),
            old(self).position() + 4int <= old(self).data().len() <==> r is Ok,
            r matches Ok(v) ==> v == be_val(old(self).data().subrange(
                old(self).position() as int,
                old(self).position() + 4int,
            )) && final(self).position() == old(self).position() + 4int,
            r matches Err(e) ==> e == eof() && final(self).position() == old(self).position(),
    {
        let b = self.read_quad_bytes()?;
        proof {
            reveal_with_fuel(be_val, 5);
        }
        Ok((b[0] as u32) * 0x1000000 + (b[1] as u32) * 0x10000 + (b[2] as u32) * 0x100 + (b[3] as u32))
    }

    /// Reads eight bytes from the stream and interprets them as an unsigned 64-bit little-endian
    /// integer or returns an error.
    pub fn read_u64(&mut self) -> (r: Result<u64, Error>)
        ensures
            final(self).data() == old(self).data(),
            old(self).position() + 8int <= old(self).data().len() <==> r is Ok,
            r matches Ok(v) ==> v == le_val(old(self).data().subrange(
                old(self).position() as int,
                old(self).position() + 8int,
            )) && final(self).position() == old(self).position() + 8int,
            r matches Err(e) ==> e == eof() && final(self).position() == old(self).position(),
    {
        let b = self.take_bytes(8)?;
        proof {
            reveal_with_fuel(le_val, 9);
        }
        Ok((b[0] as u64) + (b[1] as u64) * 0x100 + (b[2] as u64) * 0x10000 + (b[3] as u64) * 0x1000000 + (b[4] as u64) * 0x100000000 + (b[5] as u64) * 0x10000000000 + (b[6] as u64) * 0x1000000000000 + (b[7] as u64) * 0x100000000000000)
    }

    /// Reads eight bytes from the stream and interprets them as an unsigned 64-bit big-endian
    /// integer or returns an error.
    pub fn read_be_u64(&mut self) -> (r: Result<u64, Error>)
        ensures
            final(self).data() == old(self).data(),
            old(self).position() + 8int <= old(self).data().len() <==> r is Ok,
            r matches Ok(v) ==> v == be_val(old(self).data().subrange(
                old(self).position() as int,
                old(self).position() + 8int,
            )) && final(self).position() == old(self).position() + 8int,
            r matches Err(e) ==> e == eof() && final(self).position() == old(self).position(),
    {
        let b = self.take_bytes(8)?;
        proof {
            reveal_with_fuel(be_val, 9);
        }
        Ok((b[0] as u64) * 0x100000000000000 + (b[1] as u64) * 0x1000000000000 + (b[2] as u64) * 0x10000000000 + (b[3] as u64) * 0x100000000 + (b[4] as u64) * 0x1000000 + (b[5] as u64) * 0x10000 + (b[6] as u64) * 0x100 + (b[7] as u64))
    }

    /// Reads exactly the number of bytes required to fill the provided buffer or returns an error.
    pub fn read_buf_bytes(&mut self, buf: &mut [u8]) -> (r: Result<(), Error>)
        ensures
            final(self).data() == old(self).data(),
            final(buf)@.len() == old(buf)@.len(),
            old(self).position() + old(buf)@.len() <= old(self).data().len() <==> r is Ok,
            r is Ok ==> final(buf)@ == old(self).data().subrange(
                old(self).position() as int,
                (old(self).position() + old(buf)@.len()) as int,
            ) && final(self).position() == old(self).position() + old(buf)@.len(),
            r matches Err(e) ==> e == eof() && final(self).position() == old(self).position()
                && final(buf)@ == old(buf)@,
    {
        let len = buf.len();
        let src = self.take_bytes(len)?;
        let mut i: usize = 0;
        while i < len
            invariant
                i <= len,
                len == buf@.len(),
                src@.len() == len,
                forall|k: int| 0 <= k < i ==> buf@[k] == src@[k],
            decreases len - i,
        {
            buf[i] = src[i];
            i = i + 1;
        }
        assert(buf@ =~= src@);
        Ok(())
    }

    /// Reads exactly the number of bytes requested, and returns the data or an error.
    pub fn read_boxed_slice_bytes(&mut self, len: usize) -> (r: Result<Vec<u8>, Error>)
        ensures
            final(self).data() == old(self).data(),
            old(self).position() + len <= old(self).data().len() <==> r is Ok,
            r matches Ok(v) ==> v@ == old(self).data().subrange(
                old(self).position() as int,
                old(self).position() + len,
            ) && final(self).position() == old(self).position() + len,
            r matches Err(e) ==> e == eof() && final(self).position() == old(self).position(),
    {
        let src = self.take_bytes(len)?;
        let mut v: Vec<u8> = Vec::new();
        let mut i: usize = 0;
        while i < len
            invariant
                i <= len,
                src@.len() == len,
                v@ == src@.subrange(0, i as int),
            decreases len - i,
        {
            v.push(src[i]);
            i = i + 1;
            assert(v@ =~= src@.subrange(0, i as int));
        }
        assert(src@.subrange(0, len as int) =~= src@);
        Ok(v)
    }

    /// Ignores the specified number of bytes from the stream or returns an error.
    pub fn ignore_bytes(&mut self, count: u64) -> (r: Result<(), Error>)
        ensures
            final(self).data() == old(self).data(),
            old(self).position() + count <= old(self).data().len() <==> r is Ok,
            r is Ok ==> final(self).position() == old(self).position() + count,
            r matches Err(e) ==> e == eof() && final(self).position() == old(self).position(),
    {
        proof { use_type_invariant(&*self); }
        if count > (self.buf.len() - self.pos) as u64 {
            return Err(Error::IoError(IoErrorKind::UnexpectedEof));
        }
        self.pos = self.pos + count as usize;
        Ok(())
    }

    /// Returns the unread remainder of the buffer, consuming the stream.
    pub fn into_remainder(self) -> (r: &'a [u8])
        ensures
            r@ == self.data().subrange(self.position() as int, self.data().len() as int),
    {
        proof { use_type_invariant(&self); }
        &self.buf[self.pos..self.buf.len()]
    }

    /// Moves the read position to `pos`.
    pub fn seek_to(&mut self, pos: usize)
        requires
            pos <= old(self).data().len(),
        ensures
            final(self).data() == old(self).data(),
            final(self).position() == pos,
    {
        self.pos = pos;
    }

    /// Returns the bytes not yet read, without consuming them.
    pub fn rest(&self) -> (r: &'a [u8])
        ensures
            r@ == self.data().subrange(self.position() as int, self.data().len() as int),
    {
        proof { use_type_invariant(self); }
        &self.buf[self.pos..self.buf.len()]
    }

    /// Returns the number of bytes not yet read.
    pub fn remaining(&self) -> (r: usize)
        ensures
            r == self.data().len() - self.position(),
    {
        proof { use_type_invariant(self); }
        self.buf.len() - self.pos
    }

    /// Returns the index of the next byte to be read.
    pub fn pos(&self) -> (r: usize)
        ensures
            r == self.position(),
    {
        proof { use_type_invariant(self); }
        self.pos
    }

    /// Returns the bytes read since the stream was at position `start`.
    pub fn bytes_since(&self, start: usize) -> (r: &'a [u8])
        requires
            start <= self.position(),
        ensures
            r@ == self.data().subrange(start as int, self.position() as int),
    {
        proof { use_type_invariant(self); }
        &self.buf[start..self.pos]
    }

    /// Whether `pattern` occurs in the buffer ending at index `i`.
    fn matches_at(&self, pattern: &[u8], i: usize) -> (r: bool)
        requires
            pattern@.len() <= i <= self.data().len(),
        ensures
            r == (self.data().subrange(i - pattern@.len(), i as int) == pattern@),
    {
        let plen = pattern.len();
        let start = i - plen;
        let mut k: usize = 0;
        while k < plen
            invariant
                plen == pattern@.len(),
                start + plen == i,
                i <= self.buf@.len(),
                k <= plen,
                forall|t: int| 0 <= t < k ==> self.buf@[start + t] == pattern@[t],
            decreases plen - k,
        {
            if self.buf[start + k] != pattern[k] {
                assert(self.data().subrange(start as int, i as int)[k as int] != pattern@[k as int]);
                return false;
            }
            k = k + 1;
        }
        assert(self.data().subrange(start as int, i as int) =~= pattern@);
        true
    }

    /// Scans forward for `pattern`, checking candidate positions every `align` bytes and reading
    /// at most `max_len` bytes. Returns the bytes read, which end with the pattern when it was found.
    pub fn scan_bytes_aligned_ref(&mut self, pattern: &[u8], align: usize, max_len: usize)
        -> (r: Result<&'a [u8], Error>)
        requires
            pattern@.len() > 0,
            pattern@.len() <= max_len,
            align > 0,
            old(self).data().len() + align <= usize::MAX,
        ensures
            final(self).data() == old(self).data(),
            ({
                let start = old(self).position() as int;
                let remaining = old(self).data().len() - start;
                let end = start + if remaining < max_len { remaining } else { max_len as int };
                let stop = scan_stop(old(self).data(), pattern@, align as nat, end, start + pattern@.len());
                let new_pos = if stop < old(self).data().len() { stop } else { old(self).data().len() as int };
                &&& (remaining >= pattern@.len() <==> r is Ok)
                &&& (r matches Ok(b) ==> final(self).position() == new_pos
                    && b@ == old(self).data().subrange(start, new_pos))
                &&& (r matches Err(e) ==> e == eof() && final(self).position() == old(self).position())
            }),
    {
        proof { use_type_invariant(&*self); }
        let start = self.pos;
        let remaining = self.buf.len() - start;

        if remaining < pattern.len() {
            return Err(Error::IoError(IoErrorKind::UnexpectedEof));
        }

        let end = start + if remaining < max_len { remaining } else { max_len };

        let mut i = start + pattern.len();
        let ghost s = self.buf@;

        while i < end
            invariant
                self.buf@ == s,
                start + pattern@.len() <= i,
                end <= s.len(),
                s.len() + align <= usize::MAX,
                align > 0,
                i <= s.len() + align,
                scan_stop(s, pattern@, align as nat, end as int, i as int) == scan_stop(
                    s,
                    pattern@,
                    align as nat,
                    end as int,
                    start + pattern@.len(),
                ),
            ensures
                scan_stop(s, pattern@, align as nat, end as int, i as int) == i as int,
            decreases (if i < end { end - i } else { 0 }),
        {
            if self.matches_at(pattern, i) {
                break;
            }
            i = i + align;
        }

        self.pos = if i < self.buf.len() { i } else { self.buf.len() };
        Ok(&self.buf[start..self.pos])
    }

    /// Scans forward byte by byte for `pattern`, reading at most `max_len` bytes. Returns the bytes
    /// read, which end with the pattern when it was found.
    pub fn scan_bytes_ref(&mut self, pattern: &[u8], max_len: usize) -> (r: Result<&'a [u8], Error>)
        requires
            pattern@.len() > 0,
            pattern@.len() <= max_len,
            old(self).data().len() + 1 <= usize::MAX,
        ensures
            final(self).data() == old(self).data(),
            ({
                let start = old(self).position() as int;
                let remaining = old(self).data().len() - start;
                let end = start + if remaining < max_len { remaining } else { max_len as int };
                let stop = scan_stop(old(self).data(), pattern@, 1, end, start + pattern@.len());
                let new_pos = if stop < old(self).data().len() { stop } else { old(self).data().len() as int };
                &&& (remaining >= pattern@.len() <==> r is Ok)
                &&& (r matches Ok(b) ==> final(self).position() == new_pos
                    && b@ == old(self).data().subrange(start, new_pos))
                &&& (r matches Err(e) ==> e == eof() && final(self).position() == old(self).position())
            }),
    {
        self.scan_bytes_aligned_ref(pattern, 1, max_len)
    }
}

/// A stream of a known, finite length.
pub trait FiniteStream {
    /// The total length of the stream in bytes.
    spec fn total_len(&self) -> nat;

    /// The number of bytes read so far.
    spec fn read_len(&self) -> nat;

    /// Returns the length of the the stream in bytes.
    fn len(&self) -> (r: u64)
        ensures
            r == self.total_len(),
    ;

    /// Returns the number of bytes that have been read.
    fn bytes_read(&self) -> (r: u64)
        ensures
            r == self.read_len(),
    ;

    /// Returns the number of bytes available for reading.
    fn bytes_available(&self) -> (r: u64)
        ensures
            r == self.total_len() - self.read_len(),
    ;
}

impl<'a> FiniteStream for BufStream<'a> {
    open spec fn total_len(&self) -> nat {
        self.data().len()
    }

    open spec fn read_len(&self) -> nat {
        self.position()
    }

    fn len(&self) -> (r: u64)
        ensures
            r <= usize::MAX,
    {
        proof { use_type_invariant(self); }
        self.buf.len() as u64
    }

    fn bytes_read(&self) -> (r: u64) {
        proof { use_type_invariant(self); }
        self.pos as u64
    }

    fn bytes_available(&self) -> (r: u64) {
        proof { use_type_invariant(self); }
        (self.buf.len() - self.pos) as u64
    }
}

/// A read or skip of `n` bytes, as the reads and skips of a `BufStream` state it: the data stays
/// and the position moves on by `n`.
pub open spec fn advanced_by(before: BufStream, after: BufStream, n: nat) -> bool {
    after.data() == before.data() && after.position() == before.position() + n
}

/// The total of `ns`.
pub open spec fn total_of(ns: Seq<nat>) -> nat
    decreases ns.len(),
{
    if ns.len() == 0 {
        0
    } else {
        total_of(ns.drop_last()) + ns.last()
    }
}

/// The position of a stream counts the bytes consumed since it was made: after a run of reads
/// and skips of `counts[i]` bytes each, from a new stream, the position is their total, it never
/// went back, and it lies within the data.
pub proof fn lemma_position_counts_reads<'a>(states: Seq<BufStream<'a>>, counts: Seq<nat>)
    requires
        states.len() == counts.len() + 1,
        states[0].position() == 0,
        forall|i: int| 0 <= i < counts.len() ==> advanced_by(states[i], #[trigger] states[i + 1], counts[i]),
    ensures
        states.last().position() == total_of(counts),
        states.last().data() == states[0].data(),
        total_of(counts) <= states[0].data().len(),
        forall|i: int, j: int| 0 <= i <= j < states.len() ==> states[i].position() <= states[j].position(),
    decreases counts.len(),
{
    if counts.len() > 0 {
        let n = counts.len() - 1;
        let prefix = states.drop_last();
        assert forall|i: int| 0 <= i < counts.drop_last().len() implies advanced_by(
            prefix[i],
            #[trigger] prefix[i + 1],
            counts.drop_last()[i],
        ) by {
            assert(advanced_by(states[i], states[i + 1], counts[i]));
        }
        lemma_position_counts_reads(prefix, counts.drop_last());
        assert(advanced_by(states[n], states[n + 1], counts[n]));
        assert forall|i: int, j: int| 0 <= i <= j < states.len() implies states[i].position()
            <= states[j].position() by {
            if j == states.len() - 1 && i < j {
                assert(prefix[i].position() <= prefix[n].position());
            } else if j < states.len() - 1 {
                assert(prefix[i].position() <= prefix[j].position());
            }
        }
    }
    states.last().lemma_position_bound();
}

} // verus!
