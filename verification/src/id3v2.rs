//! ID3v2 tags: the tag header, the extended header, frames, and the unsynchronisation scheme.

use vstd::prelude::*;
use vstd::arithmetic::power2::{pow2, lemma2_to64};
use crate::errors::{Error, IoErrorKind, decode_error, unsupported_error};
use crate::io::{BufStream, FiniteStream, eof, be_val};

pub mod frames;
pub mod laws;

verus! {

/// The value of `n` syncsafe bytes from byte `p` of `d`: the low seven bits of each byte, most
/// significant first.
pub open spec fn syncsafe(d: Seq<u8>, p: int, n: nat) -> nat
    decreases n,
{
    if n == 0 {
        0
    } else {
        syncsafe(d, p, (n - 1) as nat) * 128 + (d[p + n - 1] % 128) as nat
    }
}

proof fn lemma_syncsafe_bound(d: Seq<u8>, p: int, n: nat)
    ensures
        syncsafe(d, p, n) < pow2(7 * n),
    decreases n,
{
    if n == 0 {
        lemma2_to64();
    } else {
        lemma_syncsafe_bound(d, p, (n - 1) as nat);
        vstd::arithmetic::power2::lemma_pow2_adds(7 * (n - 1) as nat, 7);
        lemma2_to64();
        let prev = syncsafe(d, p, (n - 1) as nat);
        assert(prev * 128 + 127 < pow2(7 * (n - 1) as nat) * 128) by (nonlinear_arith)
            requires
                prev < pow2(7 * (n - 1) as nat),
        ;
        assert(7 * (n - 1) as nat + 7 == 7 * n);
    }
}

/// Reads a syncsafe integer of `bit_width` bits, stored in `bit_width / 7` bytes.
pub fn read_syncsafe_leq32(reader: &mut BufStream, bit_width: u32) -> (r: Result<u32, Error>)
    requires
        bit_width == 7 || bit_width == 14 || bit_width == 21 || bit_width == 28,
    ensures
        final(reader).data() == old(reader).data(),
        ({
            let d = old(reader).data();
            let p = old(reader).position();
            let n = (bit_width / 7) as nat;
            if p + n <= d.len() {
                r == Ok::<u32, Error>(syncsafe(d, p as int, n) as u32) && final(reader).position() == p + n
            } else {
                r == Err::<u32, Error>(eof())
            }
        }),
{
    let ghost d = reader.data();
    let ghost p = reader.position() as int;
    let ghost n = (bit_width / 7) as nat;
    let mut result: u32 = 0;
    let mut bits_read: u32 = 0;
    let ghost mut k: nat = 0;
    proof {
        lemma2_to64();
        assert(syncsafe(d, p, 0) == 0);
    }
    while bits_read < bit_width
        invariant
            reader.data() == d,
            d == old(reader).data(),
            p == old(reader).position(),
            n == bit_width / 7,
            bit_width == 7 || bit_width == 14 || bit_width == 21 || bit_width == 28,
            bits_read == 7 * k,
            bits_read <= bit_width,
            reader.position() == p + k,
            result == syncsafe(d, p, k) * pow2((bit_width - bits_read) as nat),
            pow2(7) == 128,
        decreases bit_width - bits_read,
    {
        proof {
            reader.lemma_position_bound();
        }
        let b = match reader.read_u8() {
            Ok(b) => b,
            Err(e) => return Err(e),
        };
        bits_read = bits_read + 7;
        let shift = bit_width - bits_read;
        let ghost old_result = result;
        proof {
            lemma2_to64();
            assert((b & 0x7f) == b % 128) by (bit_vector);
            vstd::arithmetic::power2::lemma_pow2_adds(shift as nat, 7);
            assert((bit_width - (bits_read - 7)) as nat == shift as nat + 7);
            assert(syncsafe(d, p, k + 1) == syncsafe(d, p, k) * 128 + (b % 128) as nat);
            assert(old_result + (b % 128) * pow2(shift as nat) == syncsafe(d, p, k + 1) * pow2(
                shift as nat,
            )) by (nonlinear_arith)
                requires
                    old_result == syncsafe(d, p, k) * (pow2(shift as nat) * 128),
                    syncsafe(d, p, k + 1) == syncsafe(d, p, k) * 128 + (b % 128) as nat,
            ;
            lemma_syncsafe_bound(d, p, k + 1);
            vstd::arithmetic::power2::lemma_pow2_adds(7 * (k + 1), shift as nat);
            assert(7 * (k + 1) + shift == bit_width);
            vstd::arithmetic::power2::lemma_pow2_pos(shift as nat);
            assert(syncsafe(d, p, k + 1) * pow2(shift as nat) < pow2(bit_width as nat)) by (nonlinear_arith)
                requires
                    syncsafe(d, p, k + 1) < pow2(7 * (k + 1)),
                    pow2(7 * (k + 1)) * pow2(shift as nat) == pow2(bit_width as nat),
                    pow2(shift as nat) > 0,
            ;
            vstd::arithmetic::power2::lemma_pow2_strictly_increases(bit_width as nat, 32);
            assert((b % 128) * pow2(shift as nat) <= syncsafe(d, p, k + 1) * pow2(shift as nat)) by (nonlinear_arith)
                requires
                    syncsafe(d, p, k + 1) >= (b % 128),
                    pow2(shift as nat) > 0,
            ;
            assert(pow2(32) == 0x1_0000_0000);
            assert((b % 128) * pow2(shift as nat) < 0x1_0000_0000);
            assert(old_result + (b % 128) * pow2(shift as nat) < 0x1_0000_0000);
            k = k + 1;
        }
        let m = (b & 0x7f) as u32;
        let scale = crate::io::pow2_u32(shift);
        assert(m * scale == (b % 128) * pow2(shift as nat));
        let part = m * scale;
        result = result + part;
    }
    proof {
        assert(bits_read == bit_width);
        assert(k == n);
        assert(pow2(0) == 1);
        reader.lemma_position_bound();
        lemma_syncsafe_bound(d, p, n);
        lemma2_to64();
        assert(7 * n == bit_width);
        vstd::arithmetic::power2::lemma_pow2_strictly_increases(bit_width as nat, 32);
        assert(((bit_width - bits_read) as nat) == 0nat);
        assert(pow2((bit_width - bits_read) as nat) == 1);
        assert(result == syncsafe(d, p, k)) by (nonlinear_arith)
            requires
                result == syncsafe(d, p, k) * pow2((bit_width - bits_read) as nat),
                pow2((bit_width - bits_read) as nat) == 1,
        ;
        assert(result == syncsafe(d, p, n));
        assert(syncsafe(d, p, n) < 0x1_0000_0000);
    }
    Ok(result)
}

/// The bytes of `s` from index `i` on with the unsynchronisation scheme undone: a zero byte that
/// follows a 0xff byte was inserted by the scheme and is dropped.
pub open spec fn unsync_from(s: Seq<u8>, i: int) -> Seq<u8>
    decreases s.len() - i,
{
    if i < 0 || i >= s.len() {
        seq![]
    } else if i == s.len() - 1 {
        seq![s[i]]
    } else if s[i] == 0xff && s[i + 1] == 0 {
        seq![s[i]] + unsync_from(s, i + 2)
    } else {
        seq![s[i]] + unsync_from(s, i + 1)
    }
}

proof fn lemma_unsync_len(s: Seq<u8>, i: int)
    requires
        0 <= i <= s.len(),
    ensures
        unsync_from(s, i).len() <= s.len() - i,
    decreases s.len() - i,
{
    if i < s.len() - 1 {
        if s[i] == 0xff && s[i + 1] == 0 {
            lemma_unsync_len(s, i + 2);
        } else {
            lemma_unsync_len(s, i + 1);
        }
    }
}

/// Decodes the unsynchronisation scheme in-place, and returns the length of the decoded bytes,
/// which now start the buffer.
pub fn decode_unsynchronisation(buf: &mut [u8]) -> (r: usize)
    requires
        old(buf)@.len() >= 1,
    ensures
        final(buf)@.len() == old(buf)@.len(),
        r <= old(buf)@.len(),
        final(buf)@.take(r as int) == unsync_from(old(buf)@, 0),
        final(buf)@.skip(r as int) == old(buf)@.skip(r as int),
{
    let ghost s = old(buf)@;
    let len = buf.len();
    let mut src: usize = 0;
    let mut dst: usize = 0;
    // Decode the unsynchronisation scheme in-place.
    while src < len - 1
        invariant
            len == s.len(),
            len >= 1,
            buf@.len() == len,
            dst <= src <= len,
            buf@.take(dst as int) + unsync_from(s, src as int) == unsync_from(s, 0),
            forall|k: int| dst <= k < len ==> #[trigger] buf@[k] == s[k],
        decreases len - src,
    {
        let ghost i = src as int;
        let ghost before = buf@;
        let byte = buf[src];
        buf[dst] = byte;
        proof {
            assert(buf@.take(dst + 1) =~= before.take(dst as int).push(s[i]));
        }
        dst = dst + 1;
        src = src + 1;
        if buf[src - 1] == 0xff && buf[src] == 0x00 {
            src = src + 1;
        }
        proof {
            assert(unsync_from(s, i) =~= seq![s[i]] + unsync_from(s, src as int));
            assert(buf@.take(dst as int) + unsync_from(s, src as int) =~= before.take(dst - 1) + unsync_from(s, i));
        }
    }
    let ghost before = buf@;
    if src < len {
        buf[dst] = buf[src];
        proof {
            assert(buf@.take(dst + 1) =~= before.take(dst as int).push(s[src as int]));
            assert(unsync_from(s, src as int) =~= seq![s[src as int]]);
        }
        dst = dst + 1;
    }
    proof {
        assert(unsync_from(s, src as int) =~= Seq::<u8>::empty() || src < len);
        assert(buf@.take(dst as int) =~= unsync_from(s, 0));
        assert(buf@.skip(dst as int) =~= s.skip(dst as int));
    }
    dst
}

/// The version agnostic header of an ID3v2 tag.
#[derive(Copy, Clone, Debug, PartialEq, Eq, Structural)]
pub struct Header {
    pub major_version: u8,
    pub minor_version: u8,
    pub size: u32,
    pub unsynchronisation: bool,
    pub has_extended_header: bool,
    pub experimental: bool,
    pub has_footer: bool,
}

/// Whether bit `mask` (a power of two below 256) of `b` is set.
pub open spec fn flag(b: u8, mask: u8) -> bool {
    (b / mask) % 2 == 1
}

/// The ID3v2 tag header read from byte `p` of `d`.
pub open spec fn id3v2_header(d: Seq<u8>, p: int) -> Result<Header, Error> {
    if p + 3 > d.len() {
        Err(eof())
    } else if d.subrange(p, p + 3) != seq![0x49u8, 0x44, 0x33] {
        Err(Error::Unsupported("Not an ID3 tag."))
    } else if p + 10 > d.len() {
        Err(eof())
    } else {
        let major = d[p + 3];
        let minor = d[p + 4];
        let flags = d[p + 5];
        if major == 0xff || minor == 0xff {
            Err(Error::DecodeError("Invalid version number(s)."))
        } else if major < 2 || major > 4 {
            Err(Error::Unsupported("Unsupported ID3v2."))
        } else if major == 2 && flag(flags, 0x40) {
            Err(Error::Unsupported("ID3v2.2 compression is not supported."))
        } else {
            Ok(
                Header {
                    major_version: major,
                    minor_version: minor,
                    size: syncsafe(d, p + 6, 4) as u32,
                    unsynchronisation: flag(flags, 0x80),
                    has_extended_header: major >= 3 && flag(flags, 0x40),
                    experimental: major >= 3 && flag(flags, 0x20),
                    has_footer: major >= 4 && flag(flags, 0x10),
                },
            )
        }
    }
}

proof fn lemma_flags(b: u8)
    ensures
        (b & 0x80 != 0) == flag(b, 0x80),
        (b & 0x40 != 0) == flag(b, 0x40),
        (b & 0x20 != 0) == flag(b, 0x20),
        (b & 0x10 != 0) == flag(b, 0x10),
{
    assert((b & 0x80 != 0) == ((b / 0x80) % 2 == 1)) by (bit_vector);
    assert((b & 0x40 != 0) == ((b / 0x40) % 2 == 1)) by (bit_vector);
    assert((b & 0x20 != 0) == ((b / 0x20) % 2 == 1)) by (bit_vector);
    assert((b & 0x10 != 0) == ((b / 0x10) % 2 == 1)) by (bit_vector);
}

/// Reads the header of an ID3v2 tag.
pub fn read_id3v2_header(reader: &mut BufStream) -> (r: Result<Header, Error>)
    ensures
        final(reader).data() == old(reader).data(),
        r == id3v2_header(old(reader).data(), old(reader).position() as int),
        r is Ok ==> final(reader).position() == old(reader).position() + 10,
{
    let ghost d = reader.data();
    let ghost p = reader.position() as int;
    let marker = reader.read_triple_bytes()?;
    if marker[0] != 0x49 || marker[1] != 0x44 || marker[2] != 0x33 {
        proof {
            assert(marker@ == d.subrange(p, p + 3));
            assert(d.subrange(p, p + 3) != seq![0x49u8, 0x44, 0x33]) by {
                if marker[0] != 0x49 {
                    assert(d.subrange(p, p + 3)[0] != seq![0x49u8, 0x44, 0x33][0]);
                } else if marker[1] != 0x44 {
                    assert(d.subrange(p, p + 3)[1] != seq![0x49u8, 0x44, 0x33][1]);
                } else {
                    assert(d.subrange(p, p + 3)[2] != seq![0x49u8, 0x44, 0x33][2]);
                }
            }
        }
        return unsupported_error("Not an ID3 tag.");
    }
    proof {
        assert(marker@ == d.subrange(p, p + 3));
        assert(d.subrange(p, p + 3) =~= seq![0x49u8, 0x44, 0x33]);
    }
    let major_version = reader.read_u8()?;
    let minor_version = reader.read_u8()?;
    let flags = reader.read_u8()?;
    let size = read_syncsafe_leq32(reader, 28)?;
    proof {
        lemma_flags(flags);
    }
    // Major and minor version numbers should never equal 0xff as per the specification.
    if major_version == 0xff || minor_version == 0xff {
        return decode_error("Invalid version number(s).");
    }
    // Only support versions 2.2.x (first version) to 2.4.x (latest version as of May 2019) of the
    // specification.
    if major_version < 2 || major_version > 4 {
        return unsupported_error("Unsupported ID3v2.");
    }
    // Version 2.2 of the standard specifies a compression flag bit, but does not specify a
    // compression standard. Future versions of the standard remove this feature and repurpose
    // this bit for other features. Since there is no way to know how to handle the remaining tag
    // data, return an unsupported error.
    if major_version == 2 && (flags & 0x40) != 0 {
        return unsupported_error("ID3v2.2 compression is not supported.");
    }
    // With the exception of the compression flag in version 2.2, flags were added sequentially
    // each major version.
    Ok(
        Header {
            major_version,
            minor_version,
            size,
            unsynchronisation: flags & 0x80 != 0,
            has_extended_header: major_version >= 3 && flags & 0x40 != 0,
            experimental: major_version >= 3 && flags & 0x20 != 0,
            has_footer: major_version >= 4 && flags & 0x10 != 0,
        },
    )
}

/// The error reading `k` bytes at once from byte `r` of a stream over `d` limited to its first
/// `scope` bytes fails with: past the limit, or past the end of the data.
pub open spec fn multi_fail(d: Seq<u8>, r: int, k: int, scope: int) -> Option<Error> {
    if r + k > scope {
        Some(Error::IoError(IoErrorKind::Other))
    } else if r + k > d.len() {
        Some(eof())
    } else {
        None
    }
}

/// The error reading `k` bytes one at a time from byte `r` of a stream over `d` limited to its
/// first `scope` bytes fails with.
pub open spec fn bytes_fail(d: Seq<u8>, r: int, k: int, scope: int) -> Option<Error> {
    if r + k > scope && scope <= d.len() {
        Some(Error::IoError(IoErrorKind::Other))
    } else if r + k > d.len() {
        Some(eof())
    } else {
        None
    }
}

/// Reads one byte from a stream limited to its first `scope` bytes.
fn scoped_u8(s: &mut BufStream, scope: usize) -> (r: Result<u8, Error>)
    ensures
        final(s).data() == old(s).data(),
        match bytes_fail(old(s).data(), old(s).position() as int, 1, scope as int) {
            Some(e) => r == Err::<u8, Error>(e),
            None => r == Ok::<u8, Error>(old(s).data()[old(s).position() as int])
                && final(s).position() == old(s).position() + 1,
        },
{
    proof {
        s.lemma_position_bound();
    }
    if s.pos() >= scope {
        return Err(Error::IoError(IoErrorKind::Other));
    }
    s.read_u8()
}

/// Reads a big-endian integer of `k` bytes at once from a stream limited to its first `scope`
/// bytes.
fn scoped_be(s: &mut BufStream, scope: usize, k: usize) -> (r: Result<u32, Error>)
    requires
        2 <= k <= 4,
    ensures
        final(s).data() == old(s).data(),
        match multi_fail(old(s).data(), old(s).position() as int, k as int, scope as int) {
            Some(e) => r == Err::<u32, Error>(e),
            None => r == Ok::<u32, Error>(
                be_val(old(s).data().subrange(old(s).position() as int, old(s).position() + k)) as u32,
            ) && final(s).position() == old(s).position() + k,
        },
{
    proof {
        s.lemma_position_bound();
    }
    if scope < s.pos() || scope - s.pos() < k {
        return Err(Error::IoError(IoErrorKind::Other));
    }
    if k == 2 {
        Ok(s.read_be_u16()? as u32)
    } else if k == 3 {
        s.read_be_u24()
    } else {
        s.read_be_u32()
    }
}

/// Reads a 28-bit syncsafe integer, one byte at a time, from a stream limited to its first
/// `scope` bytes.
fn scoped_syncsafe28(s: &mut BufStream, scope: usize) -> (r: Result<u32, Error>)
    ensures
        final(s).data() == old(s).data(),
        match bytes_fail(old(s).data(), old(s).position() as int, 4, scope as int) {
            Some(e) => r == Err::<u32, Error>(e),
            None => r == Ok::<u32, Error>(syncsafe(old(s).data(), old(s).position() as int, 4) as u32)
                && final(s).position() == old(s).position() + 4,
        },
{
    proof {
        s.lemma_position_bound();
    }
    let pos = s.pos();
    if scope < pos {
        return Err(Error::IoError(IoErrorKind::Other));
    }
    let room = scope - pos;
    if room < 4 && (room as u64) <= s.bytes_available() {
        return Err(Error::IoError(IoErrorKind::Other));
    }
    read_syncsafe_leq32(s, 28)
}

/// Skips `count` bytes of a stream limited to its first `scope` bytes.
fn scoped_ignore(s: &mut BufStream, scope: usize, count: u64) -> (r: Result<(), Error>)
    ensures
        final(s).data() == old(s).data(),
        match multi_fail(old(s).data(), old(s).position() as int, count as int, scope as int) {
            Some(e) => r == Err::<(), Error>(e),
            None => r is Ok && final(s).position() == old(s).position() + count,
        },
{
    proof {
        s.lemma_position_bound();
    }
    if scope < s.pos() || ((scope - s.pos()) as u64) < count {
        return Err(Error::IoError(IoErrorKind::Other));
    }
    s.ignore_bytes(count)
}

/// Where a frame read from byte `p` of a tag body `d` of `scope` bytes ends, or the error the read
/// fails with. A frame header holds an identifier, the size of the frame's data and, from version
/// 3 on, flags; an all-zero identifier marks padding, and its data is not skipped.
pub open spec fn frame_at(d: Seq<u8>, p: int, scope: int, version: u8) -> Result<int, Error> {
    if version == 2 {
        match multi_fail(d, p, 3, scope) {
            Some(e) => Err(e),
            None => match multi_fail(d, p + 3, 3, scope) {
                Some(e) => Err(e),
                None => if d.subrange(p, p + 3) == seq![0u8, 0, 0] {
                    Ok(p + 6)
                } else {
                    let size = be_val(d.subrange(p + 3, p + 6));
                    match multi_fail(d, p + 6, size as int, scope) {
                        Some(e) => Err(e),
                        None => Ok(p + 6 + size),
                    }
                },
            },
        }
    } else {
        match multi_fail(d, p, 4, scope) {
            Some(e) => Err(e),
            None => {
                let size_fail = if version == 3 {
                    multi_fail(d, p + 4, 4, scope)
                } else {
                    bytes_fail(d, p + 4, 4, scope)
                };
                match size_fail {
                    Some(e) => Err(e),
                    None => match multi_fail(d, p + 8, 2, scope) {
                        Some(e) => Err(e),
                        None => if d.subrange(p, p + 4) == seq![0u8, 0, 0, 0] {
                            Ok(p + 10)
                        } else {
                            let size: nat = if version == 3 {
                                be_val(d.subrange(p + 4, p + 8))
                            } else {
                                syncsafe(d, p + 4, 4)
                            };
                            match multi_fail(d, p + 10, size as int, scope) {
                                Some(e) => Err(e),
                                None => Ok(p + 10 + size),
                            }
                        },
                    },
                }
            },
        }
    }
}

/// Reads an ID3v2.2 frame from a tag body limited to its first `scope` bytes, skipping its data.
fn read_id3v2p2_frame(reader: &mut BufStream, scope: usize) -> (r: Result<(), Error>)
    ensures
        final(reader).data() == old(reader).data(),
        match frame_at(old(reader).data(), old(reader).position() as int, scope as int, 2) {
            Ok(end) => r is Ok && final(reader).position() == end,
            Err(e) => r == Err::<(), Error>(e),
        },
{
    let ghost d = reader.data();
    let ghost p = reader.position() as int;
    let id = scoped_be(reader, scope, 3)?;
    let size = scoped_be(reader, scope, 3)?;
    proof {
        reveal_with_fuel(be_val, 4);
        assert(d.subrange(p, p + 3).drop_last().drop_last() =~= seq![d[p]]);
        assert(d.subrange(p, p + 3).drop_last() =~= seq![d[p], d[p + 1]]);
        assert(seq![d[p]].drop_last() =~= Seq::<u8>::empty());
    }
    if id == 0 {
        proof {
            assert(d.subrange(p, p + 3) =~= seq![0u8, 0, 0]);
        }
        return Ok(());
    }
    proof {
        assert(d.subrange(p, p + 3) != seq![0u8, 0, 0]) by {
            if d.subrange(p, p + 3) == seq![0u8, 0, 0] {
                assert(d[p] == 0 && d[p + 1] == 0 && d[p + 2] == 0);
            }
        }
    }
    scoped_ignore(reader, scope, size as u64)
}

/// Reads an ID3v2.3 or ID3v2.4 frame from a tag body limited to its first `scope` bytes,
/// skipping its data. Version 4 codes the frame size as a syncsafe integer.
fn read_frame_v34(reader: &mut BufStream, scope: usize, version: u8) -> (r: Result<(), Error>)
    requires
        version == 3 || version == 4,
    ensures
        final(reader).data() == old(reader).data(),
        match frame_at(old(reader).data(), old(reader).position() as int, scope as int, version) {
            Ok(end) => r is Ok && final(reader).position() == end,
            Err(e) => r == Err::<(), Error>(e),
        },
{
    let ghost d = reader.data();
    let ghost p = reader.position() as int;
    let id = scoped_be(reader, scope, 4)?;
    let size = if version == 3 {
        scoped_be(reader, scope, 4)?
    } else {
        scoped_syncsafe28(reader, scope)?
    };
    let _flags = scoped_be(reader, scope, 2)?;
    proof {
        reveal_with_fuel(be_val, 5);
        assert(d.subrange(p, p + 4).drop_last().drop_last().drop_last() =~= seq![d[p]]);
        assert(d.subrange(p, p + 4).drop_last().drop_last() =~= seq![d[p], d[p + 1]]);
        assert(d.subrange(p, p + 4).drop_last() =~= seq![d[p], d[p + 1], d[p + 2]]);
        assert(seq![d[p]].drop_last() =~= Seq::<u8>::empty());
        lemma_syncsafe_bound(d, p + 4, 4);
        lemma2_to64();
        let s4 = d.subrange(p + 4, p + 8);
        assert(s4.drop_last().drop_last().drop_last() =~= seq![s4[0]]);
        assert(seq![s4[0]].drop_last() =~= Seq::<u8>::empty());
        assert(be_val(s4) < 0x1_0000_0000);
        assert(size as nat == if version == 3 {
            be_val(d.subrange(p + 4, p + 8))
        } else {
            syncsafe(d, p + 4, 4)
        });
    }
    if id == 0 {
        proof {
            assert(d.subrange(p, p + 4) =~= seq![0u8, 0, 0, 0]);
        }
        return Ok(());
    }
    proof {
        assert(d.subrange(p, p + 4) != seq![0u8, 0, 0, 0]) by {
            if d.subrange(p, p + 4) == seq![0u8, 0, 0, 0] {
                assert(d[p] == 0 && d[p + 1] == 0 && d[p + 2] == 0 && d[p + 3] == 0);
            }
        }
    }
    scoped_ignore(reader, scope, size as u64)
}

/// Reads an ID3v2.3 frame from a tag body limited to its first `scope` bytes, skipping its data.
fn read_id3v2p3_frame(reader: &mut BufStream, scope: usize) -> (r: Result<(), Error>)
    ensures
        final(reader).data() == old(reader).data(),
        match frame_at(old(reader).data(), old(reader).position() as int, scope as int, 3) {
            Ok(end) => r is Ok && final(reader).position() == end,
            Err(e) => r == Err::<(), Error>(e),
        },
{
    read_frame_v34(reader, scope, 3)
}

/// Reads an ID3v2.4 frame from a tag body limited to its first `scope` bytes, skipping its data.
fn read_id3v2p4_frame(reader: &mut BufStream, scope: usize) -> (r: Result<(), Error>)
    ensures
        final(reader).data() == old(reader).data(),
        match frame_at(old(reader).data(), old(reader).position() as int, scope as int, 4) {
            Ok(end) => r is Ok && final(reader).position() == end,
            Err(e) => r == Err::<(), Error>(e),
        },
{
    read_frame_v34(reader, scope, 4)
}

/// A restriction on the size of a tag.
#[derive(Copy, Clone, Debug, PartialEq, Eq, Structural)]
pub enum TagSizeRestriction {
    Max128Frames1024KiB,
    Max64Frames128KiB,
    Max32Frames40KiB,
    Max32Frames4KiB,
}

/// A restriction on the encoding of text.
#[derive(Copy, Clone, Debug, PartialEq, Eq, Structural)]
pub enum TextEncodingRestriction {
    Unrestricted,
    Utf8OrIso88591,
}

/// A restriction on the size of text fields.
#[derive(Copy, Clone, Debug, PartialEq, Eq, Structural)]
pub enum TextFieldSize {
    Unrestricted,
    Max1024Characters,
    Max128Characters,
    Max30Characters,
}

/// A restriction on the encoding of images.
#[derive(Copy, Clone, Debug, PartialEq, Eq, Structural)]
pub enum ImageEncodingRestriction {
    Unrestricted,
    PngOrJpegOnly,
}

/// A restriction on the size of images.
#[derive(Copy, Clone, Debug, PartialEq, Eq, Structural)]
pub enum ImageSizeRestriction {
    Unrestricted,
    LessThan256x256,
    LessThan64x64,
    Exactly64x64,
}

/// The restrictions a tag declares in its extended header.
#[derive(Copy, Clone, Debug, PartialEq, Eq, Structural)]
pub struct Restrictions {
    pub tag_size: TagSizeRestriction,
    pub text_encoding: TextEncodingRestriction,
    pub text_field_size: TextFieldSize,
    pub image_encoding: ImageEncodingRestriction,
    pub image_size: ImageSizeRestriction,
}

/// The extended header of an ID3v2 tag.
#[derive(Copy, Clone, Debug, PartialEq, Eq, Structural)]
pub struct ExtendedHeader {
    pub size: u32,
    pub is_update: bool,
    pub crc32: Option<u32>,
    pub restrictions: Option<Restrictions>,
}

/// The restrictions coded by a restrictions byte whose text encoding bit is clear.
pub open spec fn restrictions_of(r: u8) -> Restrictions {
    Restrictions {
        tag_size: if r / 64 == 0 {
            TagSizeRestriction::Max128Frames1024KiB
        } else if r / 64 == 1 {
            TagSizeRestriction::Max64Frames128KiB
        } else if r / 64 == 2 {
            TagSizeRestriction::Max32Frames40KiB
        } else {
            TagSizeRestriction::Max32Frames4KiB
        },
        text_encoding: TextEncodingRestriction::Unrestricted,
        text_field_size: if (r / 8) % 4 == 0 {
            TextFieldSize::Unrestricted
        } else if (r / 8) % 4 == 1 {
            TextFieldSize::Max1024Characters
        } else if (r / 8) % 4 == 2 {
            TextFieldSize::Max128Characters
        } else {
            TextFieldSize::Max30Characters
        },
        image_encoding: if (r / 4) % 2 == 0 {
            ImageEncodingRestriction::Unrestricted
        } else {
            ImageEncodingRestriction::PngOrJpegOnly
        },
        image_size: if r % 4 == 0 {
            ImageSizeRestriction::Unrestricted
        } else if r % 4 == 1 {
            ImageSizeRestriction::LessThan256x256
        } else if r % 4 == 2 {
            ImageSizeRestriction::LessThan64x64
        } else {
            ImageSizeRestriction::Exactly64x64
        },
    }
}

/// The optional one-byte field of an extended header flag read from byte `q` of `d`: its length
/// byte must be `expected`. The position after the field, or the error.
pub open spec fn ext_flag_len(d: Seq<u8>, q: int, scope: int, expected: u8, err: &'static str) -> Result<int, Error> {
    match bytes_fail(d, q, 1, scope) {
        Some(e) => Err(e),
        None => if d[q] != expected {
            Err(Error::DecodeError(err))
        } else {
            Ok(q + 1)
        },
    }
}

/// The restrictions field of an extended header read from byte `q` of `d`, and the position
/// after it; where its text encoding bit is set, which cannot be read, an error.
pub open spec fn ext_restrictions(d: Seq<u8>, q: int, scope: int) -> Option<Result<(Restrictions, int), Error>> {
    match ext_flag_len(d, q, scope, 1, "Restrictions extended flag has invalid size.") {
        Err(e) => Some(Err(e)),
        Ok(q1) => match bytes_fail(d, q1, 1, scope) {
            Some(e) => Some(Err(e)),
            None => if flag(d[q1], 0x40) {
                Some(Err(Error::Unsupported("ID3v2.4 text encoding restrictions cannot be read.")))
            } else {
                Some(Ok((restrictions_of(d[q1]), q1 + 1)))
            },
        },
    }
}

/// The fields of an extended header that follow its flags byte `flags`, read from byte `q` of
/// `d`: whether the tag is an update, its restrictions, and the position after them; or the
/// error.
pub open spec fn ext_tail(d: Seq<u8>, q: int, scope: int, flags: u8) -> Option<Result<(bool, Option<Restrictions>, int), Error>> {
    let upd = if flag(flags, 0x40) {
        ext_flag_len(d, q, scope, 1, "Is update extended flag has invalid size.")
    } else {
        Ok(q)
    };
    match upd {
        Err(e) => Some(Err(e)),
        Ok(q1) => {
            let crc = if flag(flags, 0x20) {
                match ext_flag_len(d, q1, scope, 5, "CRC32 extended flag has invalid size.") {
                    Err(e) => Some(Err(e)),
                    Ok(_) => Some(Err(Error::Unsupported("ID3v2.4 extended header CRC-32 cannot be read."))),
                }
            } else {
                Some(Ok(q1))
            };
            match crc {
                None => None,
                Some(Err(e)) => Some(Err(e)),
                Some(Ok(q2)) => if flag(flags, 0x10) {
                    match ext_restrictions(d, q2, scope) {
                        None => None,
                        Some(Err(e)) => Some(Err(e)),
                        Some(Ok((rs, q3))) => Some(Ok((flag(flags, 0x40), Some(rs), q3))),
                    }
                } else {
                    Some(Ok((flag(flags, 0x40), None, q2)))
                },
            }
        },
    }
}

/// The ID3v2.4 extended header read from byte `p` of a tag body `d` limited to `scope` bytes, and
/// where it ends; or the error. A CRC of the valid size, or a text encoding restriction, cannot
/// be read: the header is unsupported.
pub open spec fn ext_header_v4(d: Seq<u8>, p: int, scope: int) -> Option<Result<(ExtendedHeader, int), Error>> {
    match bytes_fail(d, p, 5, scope) {
        Some(e) => Some(Err(e)),
        None => if d[p + 4] != 1 {
            Some(Err(Error::DecodeError("Extended flags should have a length of 1.")))
        } else {
            match bytes_fail(d, p + 5, 1, scope) {
                Some(e) => Some(Err(e)),
                None => match ext_tail(d, p + 6, scope, d[p + 5]) {
                    None => None,
                    Some(Err(e)) => Some(Err(e)),
                    Some(Ok((is_update, restrictions, end))) => Some(
                        Ok(
                            (
                                ExtendedHeader {
                                    size: syncsafe(d, p, 4) as u32,
                                    is_update,
                                    crc32: None,
                                    restrictions,
                                },
                                end,
                            ),
                        ),
                    ),
                },
            }
        },
    }
}

fn decode_restrictions(r: u8) -> (res: Restrictions)
    requires
        !flag(r, 0x40),
    ensures
        res == restrictions_of(r),
{
    proof {
        assert((r & 0xc0) >> 6 == r / 64 && (r & 0x18) >> 3 == (r / 8) % 4 && (r & 0x04) >> 2 == (r
            / 4) % 2 && r & 0x03 == r % 4) by (bit_vector);
    }
    let tag_size = match (r & 0xc0) >> 6 {
        0 => TagSizeRestriction::Max128Frames1024KiB,
        1 => TagSizeRestriction::Max64Frames128KiB,
        2 => TagSizeRestriction::Max32Frames40KiB,
        _ => TagSizeRestriction::Max32Frames4KiB,
    };
    let text_field_size = match (r & 0x18) >> 3 {
        0 => TextFieldSize::Unrestricted,
        1 => TextFieldSize::Max1024Characters,
        2 => TextFieldSize::Max128Characters,
        _ => TextFieldSize::Max30Characters,
    };
    let image_encoding = match (r & 0x04) >> 2 {
        0 => ImageEncodingRestriction::Unrestricted,
        _ => ImageEncodingRestriction::PngOrJpegOnly,
    };
    let image_size = match r & 0x03 {
        0 => ImageSizeRestriction::Unrestricted,
        1 => ImageSizeRestriction::LessThan256x256,
        2 => ImageSizeRestriction::LessThan64x64,
        _ => ImageSizeRestriction::Exactly64x64,
    };
    Restrictions {
        tag_size,
        text_encoding: TextEncodingRestriction::Unrestricted,
        text_field_size,
        image_encoding,
        image_size,
    }
}

fn read_flag_len(reader: &mut BufStream, scope: usize, expected: u8, err: &'static str) -> (r: Result<(), Error>)
    ensures
        final(reader).data() == old(reader).data(),
        match ext_flag_len(old(reader).data(), old(reader).position() as int, scope as int, expected, err) {
            Ok(q) => r is Ok && final(reader).position() == q,
            Err(e) => r == Err::<(), Error>(e),
        },
{
    let len = scoped_u8(reader, scope)?;
    if len != expected {
        return decode_error(err);
    }
    Ok(())
}

fn read_ext_restrictions(reader: &mut BufStream, scope: usize) -> (r: Result<Restrictions, Error>)
    ensures
        final(reader).data() == old(reader).data(),
        match ext_restrictions(old(reader).data(), old(reader).position() as int, scope as int) {
            Some(Ok((rs, q))) => r == Ok::<Restrictions, Error>(rs) && final(reader).position() == q,
            Some(Err(e)) => r == Err::<Restrictions, Error>(e),
            None => false,
        },
{
    read_flag_len(reader, scope, 1, "Restrictions extended flag has invalid size.")?;
    let r = scoped_u8(reader, scope)?;
    proof {
        lemma_flags(r);
    }
    if (r & 0x40) != 0 {
        return Err(Error::Unsupported("ID3v2.4 text encoding restrictions cannot be read."));
    }
    Ok(decode_restrictions(r))
}

fn read_ext_tail(reader: &mut BufStream, scope: usize, flags: u8) -> (r: Result<(bool, Option<Restrictions>), Error>)
    ensures
        final(reader).data() == old(reader).data(),
        match ext_tail(old(reader).data(), old(reader).position() as int, scope as int, flags) {
            Some(Ok((u, rs, q))) => r == Ok::<(bool, Option<Restrictions>), Error>((u, rs))
                && final(reader).position() == q,
            Some(Err(e)) => r == Err::<(bool, Option<Restrictions>), Error>(e),
            None => false,
        },
{
    proof {
        lemma_flags(flags);
    }
    let mut is_update = false;
    // Tag is an update flag.
    if (flags & 0x40) != 0 {
        read_flag_len(reader, scope, 1, "Is update extended flag has invalid size.")?;
        is_update = true;
    }
    // CRC32 flag: a header whose CRC field is valid is never read.
    if (flags & 0x20) != 0 {
        read_flag_len(reader, scope, 5, "CRC32 extended flag has invalid size.")?;
        return Err(Error::Unsupported("ID3v2.4 extended header CRC-32 cannot be read."));
    }
    // Restrictions flag.
    if (flags & 0x10) != 0 {
        let rs = read_ext_restrictions(reader, scope)?;
        Ok((is_update, Some(rs)))
    } else {
        Ok((is_update, None))
    }
}

/// Reads the ID3v2.4 extended header of a tag body limited to its first `scope` bytes.
pub fn read_id3v2p4_extended_header(reader: &mut BufStream, scope: usize) -> (r: Result<ExtendedHeader, Error>)
    ensures
        final(reader).data() == old(reader).data(),
        match ext_header_v4(old(reader).data(), old(reader).position() as int, scope as int) {
            Some(Ok((h, end))) => r == Ok::<ExtendedHeader, Error>(h) && final(reader).position() == end,
            Some(Err(e)) => r == Err::<ExtendedHeader, Error>(e),
            None => false,
        },
{
    let ghost d = reader.data();
    let ghost p = reader.position() as int;
    let size = scoped_syncsafe28(reader, scope)?;
    if scoped_u8(reader, scope)? != 1 {
        return decode_error("Extended flags should have a length of 1.");
    }
    let flags = scoped_u8(reader, scope)?;
    proof {
        lemma2_to64();
        lemma_syncsafe_bound(d, p, 4);
    }
    let (is_update, restrictions) = read_ext_tail(reader, scope, flags)?;
    Ok(ExtendedHeader { size, is_update, crc32: None, restrictions })
}

/// Reads an ID3v2.3 extended header. Such headers are not supported.
pub fn read_id3v2p3_extended_header(reader: &mut BufStream) -> (r: Result<ExtendedHeader, Error>)
    ensures
        r == Err::<ExtendedHeader, Error>(Error::Unsupported("ID3v2.3 extended headers not supported.")),
        *final(reader) == *old(reader),
{
    unsupported_error("ID3v2.3 extended headers not supported.")
}

/// Reading frames from byte `p` of a tag body `d` of `scope` bytes until the body is exhausted:
/// success, or the first error.
pub open spec fn frames_from(d: Seq<u8>, p: int, scope: int, version: u8) -> Result<(), Error>
    decreases d.len() - p,
{
    match frame_at(d, p, scope, version) {
        Err(e) => Err(e),
        Ok(q) => if q == scope {
            Ok(())
        } else if p < q <= d.len() {
            frames_from(d, q, scope, version)
        } else {
            Ok(())
        },
    }
}

proof fn lemma_frame_at_bounds(d: Seq<u8>, p: int, scope: int, version: u8)
    ensures
        frame_at(d, p, scope, version) matches Ok(q) ==> p + 6 <= q <= d.len() && q <= scope,
{
}

/// The body of a tag whose header starts at byte `p` of `d`: the `size` bytes after the header,
/// or as many as there are.
pub open spec fn tag_body(d: Seq<u8>, p: int, size: nat) -> Seq<u8> {
    d.subrange(p + 10, vstd::math::min(p + 10 + size, d.len() as int))
}

/// Reading an ID3v2 tag from byte `p` of `d`: success or the first error.
pub open spec fn tag_status(d: Seq<u8>, p: int) -> Option<Result<(), Error>> {
    match id3v2_header(d, p) {
        Err(e) => Some(Err(e)),
        Ok(h) => {
            let body = tag_body(d, p, h.size as nat);
            let scope = h.size as int;
            if h.has_extended_header {
                if h.major_version == 3 {
                    Some(Err(Error::Unsupported("ID3v2.3 extended headers not supported.")))
                } else {
                    match ext_header_v4(body, 0, scope) {
                        None => None,
                        Some(Err(e)) => Some(Err(e)),
                        Some(Ok((_, q))) => Some(frames_from(body, q, scope, h.major_version)),
                    }
                }
            } else {
                Some(frames_from(body, 0, scope, h.major_version))
            }
        },
    }
}

/// Reads an ID3v2 tag: its header, its extended header if it has one, then its frames until the
/// tag's body is exhausted.
pub fn read_id3v2(reader: &mut BufStream) -> (r: Result<(), Error>)
    ensures
        final(reader).data() == old(reader).data(),
        match tag_status(old(reader).data(), old(reader).position() as int) {
            Some(Ok(_)) => r is Ok && final(reader).position() == old(reader).position() + 10
                + id3v2_header(old(reader).data(), old(reader).position() as int).unwrap().size,
            Some(Err(e)) => r == Err::<(), Error>(e),
            None => false,
        },
{
    let ghost d = reader.data();
    let ghost p = reader.position() as int;
    // Read the version agnostic tag header.
    let header = read_id3v2_header(reader)?;
    // The header specified the byte length of the contents of the tag (excluding the header):
    // reads stay within that length, and the frames end where it does.
    let scope = header.size as usize;
    proof {
        reader.lemma_position_bound();
    }
    let avail = reader.remaining();
    let n: usize = if scope < avail {
        scope
    } else {
        avail
    };
    let body = match reader.read_boxed_slice_bytes(n) {
        Ok(b) => b,
        Err(e) => return Err(e),
    };
    let ghost bd = body@;
    assert(bd =~= tag_body(d, p, header.size as nat));
    let mut stream = BufStream::new(body.as_slice());
    // If there is an extended header, read and parse it based on the major version of the tag.
    if header.has_extended_header {
        if header.major_version == 3 {
            read_id3v2p3_extended_header(&mut stream)?;
        } else {
            read_id3v2p4_extended_header(&mut stream, scope)?;
        }
    }
    let ghost start = stream.position() as int;
    assert(tag_status(d, p) == Some(frames_from(bd, start, scope as int, header.major_version)));
    let ghost end_pos = reader.position();
    // Read frames until there are no more bytes available in the tag.
    loop
        invariant_except_break
            stream.data() == bd,
            reader.data() == d,
            d == old(reader).data(),
            p == old(reader).position(),
            header == id3v2_header(d, p).unwrap(),
            scope == header.size,
            reader.position() == end_pos,
            end_pos == p + 10 + n,
            n == bd.len(),
            tag_status(d, p) == Some(frames_from(bd, start, scope as int, header.major_version)),
            2 <= header.major_version <= 4,
            frames_from(bd, start, scope as int, header.major_version) == frames_from(
                bd,
                stream.position() as int,
                scope as int,
                header.major_version,
            ),
        ensures
            frames_from(bd, start, scope as int, header.major_version) == Ok::<(), Error>(()),
            stream.position() == scope,
            stream.data() == bd,
            reader.data() == d,
            reader.position() == end_pos,
            end_pos == p + 10 + n,
            n == bd.len(),
            scope == header.size,
            header == id3v2_header(d, p).unwrap(),
            tag_status(d, p) == Some(frames_from(bd, start, scope as int, header.major_version)),
        decreases bd.len() - stream.position(),
    {
        let ghost q = stream.position() as int;
        proof {
            lemma_frame_at_bounds(bd, q, scope as int, header.major_version);
        }
        if header.major_version == 2 {
            read_id3v2p2_frame(&mut stream, scope)?;
        } else if header.major_version == 3 {
            read_id3v2p3_frame(&mut stream, scope)?;
        } else {
            read_id3v2p4_frame(&mut stream, scope)?;
        }
        if stream.pos() == scope {
            break;
        }
    }
    proof {
        stream.lemma_position_bound();
        assert(n <= scope);
        assert(n == scope);
    }
    Ok(())
}

} // verus!
