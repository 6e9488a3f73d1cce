//! Ogg page headers.

use vstd::prelude::*;
use crate::errors::Error;
use crate::io::{BufStream, eof, le_val};

verus! {

/// The header of an Ogg page.
#[derive(Copy, Clone, Debug, Default)]
pub struct PageHeader {
    /// The stream structure version.
    pub version: u8,
    /// The absolute granule position: the timestamp after the last packet completed on the page.
    pub ts: u64,
    /// The serial number of the logical stream the page belongs to.
    pub serial: u32,
    /// The page's sequence number within its logical stream.
    pub sequence: u32,
    /// The CRC-32 of the page.
    pub crc: u32,
    /// The number of entries in the page's segment table.
    pub n_segments: u8,
    /// The page continues a packet of the previous page.
    pub is_continuation: bool,
    /// The page is the first of its logical stream.
    pub is_first_page: bool,
    /// The page is the last of its logical stream.
    pub is_last_page: bool,
}

/// The little-endian value of the `n` bytes at byte `i` of `d`.
pub open spec fn le_at(d: Seq<u8>, i: int, n: int) -> nat {
    le_val(d.subrange(i, i + n))
}

/// The page header read from byte `p` of `d`, or the error: the "OggS" marker, version 0, flags
/// with only their 3 low bits in use, the granule position, serial number, sequence number, CRC
/// and number of segments. A header is 27 bytes long.
pub open spec fn page_header_at(d: Seq<u8>, p: int) -> Result<PageHeader, Error> {
    if p + 4 > d.len() {
        Err(eof())
    } else if d.subrange(p, p + 4) != seq![0x4fu8, 0x67, 0x67, 0x53] {
        Err(Error::Unsupported("missing ogg stream marker"))
    } else if p + 5 > d.len() {
        Err(eof())
    } else if d[p + 4] != 0 {
        Err(Error::Unsupported("invalid ogg version"))
    } else if p + 6 > d.len() {
        Err(eof())
    } else if d[p + 5] >= 8 {
        Err(Error::DecodeError("invalid flag bits set"))
    } else if p + 27 > d.len() {
        Err(eof())
    } else {
        let flags = d[p + 5];
        Ok(
            PageHeader {
                version: 0,
                ts: le_at(d, p + 6, 8) as u64,
                serial: le_at(d, p + 14, 4) as u32,
                sequence: le_at(d, p + 18, 4) as u32,
                crc: le_at(d, p + 22, 4) as u32,
                n_segments: d[p + 26],
                is_continuation: flags % 2 == 1,
                is_first_page: flags / 2 % 2 == 1,
                is_last_page: flags / 4 % 2 == 1,
            },
        )
    }
}

/// Reads a page header.
pub fn read_page_header(reader: &mut BufStream) -> (r: Result<PageHeader, Error>)
    ensures
        final(reader).data() == old(reader).data(),
        match page_header_at(old(reader).data(), old(reader).position() as int) {
            Ok(h) => r == Ok::<PageHeader, Error>(h) && final(reader).position() == old(
                reader,
            ).position() + 27,
            Err(e) => r == Err::<PageHeader, Error>(e),
        },
{
    let ghost d = reader.data();
    let ghost p = reader.position() as int;
    // The OggS marker should be present.
    let marker = reader.read_quad_bytes()?;
    if !(marker[0] == 0x4f && marker[1] == 0x67 && marker[2] == 0x67 && marker[3] == 0x53) {
        proof {
            if d.subrange(p, p + 4) == seq![0x4fu8, 0x67, 0x67, 0x53] {
                assert(marker@[0] == 0x4f && marker@[1] == 0x67 && marker@[2] == 0x67
                    && marker@[3] == 0x53);
            }
        }
        return Err(Error::Unsupported("missing ogg stream marker"));
    }
    assert(marker@ =~= seq![0x4fu8, 0x67, 0x67, 0x53]);
    let version = reader.read_byte()?;
    // There is only one version of the format, version 0.
    if version != 0 {
        return Err(Error::Unsupported("invalid ogg version"));
    }
    let flags = reader.read_byte()?;
    // Only the 3 least-significant bits are used for flags.
    if flags >= 8 {
        return Err(Error::DecodeError("invalid flag bits set"));
    }
    let ts = reader.read_u64()?;
    let serial = reader.read_u32()?;
    let sequence = reader.read_u32()?;
    let crc = reader.read_u32()?;
    let n_segments = reader.read_byte()?;
    Ok(
        PageHeader {
            version,
            ts,
            serial,
            sequence,
            crc,
            n_segments,
            is_continuation: flags % 2 == 1,
            is_first_page: flags / 2 % 2 == 1,
            is_last_page: flags / 4 % 2 == 1,
        },
    )
}

} // verus!
