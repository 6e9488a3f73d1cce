//! The cuesheet metadata block of a FLAC stream.

use vstd::prelude::*;
use crate::errors::{Error, decode_error};
use crate::flac::metadata::{printable_ascii, printable_ascii_to_string};
use crate::formats::{Cue, CuePoint};
use crate::io::{BufStream, be_val, eof};
use crate::tags::{StandardTagKey, Tag};

verus! {

/// The big-endian value of the `n` bytes at byte `q` of `d`.
pub open spec fn be_at(d: Seq<u8>, q: int, n: int) -> nat {
    be_val(d.subrange(q, q + n))
}

/// Reading a cuesheet track index point at byte `q` of `d`: success, or the error.
pub open spec fn index_status(d: Seq<u8>, q: int, is_cdda: bool) -> Result<(), Error> {
    if q + 12 > d.len() {
        Err(eof())
    } else if is_cdda && be_at(d, q, 8) % 588 != 0 {
        Err(Error::DecodeError("Cuesheet track index point sample offset is not a multiple of 588 for CD-DA."))
    } else if be_at(d, q + 8, 4) % 0x100_0000 != 0 {
        Err(Error::DecodeError("Cuesheet track index reserved bits should be 0."))
    } else {
        Ok(())
    }
}

/// Reading `k` index points of 12 bytes each from byte `q` of `d`: success, or the first error.
pub open spec fn indices_status(d: Seq<u8>, q: int, is_cdda: bool, k: nat) -> Result<(), Error>
    decreases k,
{
    if k == 0 {
        Ok(())
    } else {
        match indices_status(d, q, is_cdda, (k - 1) as nat) {
            Err(e) => Err(e),
            Ok(_) => index_status(d, q + 12 * (k - 1), is_cdda),
        }
    }
}

proof fn lemma_indices_err(d: Seq<u8>, q: int, is_cdda: bool, k: nat, n: nat)
    requires
        k <= n,
        indices_status(d, q, is_cdda, k) is Err,
    ensures
        indices_status(d, q, is_cdda, n) == indices_status(d, q, is_cdda, k),
    decreases n - k,
{
    if k < n {
        lemma_indices_err(d, q, is_cdda, k + 1, n);
    }
}

/// Reads a cuesheet track index point.
fn read_cuesheet_track_index(reader: &mut BufStream, is_cdda: bool) -> (r: Result<CuePoint, Error>)
    ensures
        final(reader).data() == old(reader).data(),
        match index_status(old(reader).data(), old(reader).position() as int, is_cdda) {
            Ok(_) => r matches Ok(pt) && pt.start_offset_ts == be_at(
                old(reader).data(),
                old(reader).position() as int,
                8,
            ) && pt.tags@.len() == 0 && final(reader).position() == old(reader).position() + 12,
            Err(e) => r == Err::<CuePoint, Error>(e),
        },
{
    let n_offset_samples = reader.read_be_u64()?;
    let idx_point_enc = reader.read_be_u32()?;
    // CD-DA track index points must have a sample offset that is a multiple of 588 samples
    // (588 samples = 44100 samples/sec * 1/75th of a sec).
    if is_cdda && n_offset_samples % 588 != 0 {
        return decode_error(
            "Cuesheet track index point sample offset is not a multiple of 588 for CD-DA.",
        );
    }
    proof {
        assert(idx_point_enc & 0x00ff_ffff == idx_point_enc % 0x100_0000) by (bit_vector);
    }
    if idx_point_enc & 0x00ff_ffff != 0 {
        return decode_error("Cuesheet track index reserved bits should be 0.");
    }
    Ok(CuePoint { start_offset_ts: n_offset_samples, tags: Vec::new() })
}

/// Reading a cuesheet track from byte `p` of `d`: where it ends, or the error.
pub open spec fn track_status(d: Seq<u8>, p: int, is_cdda: bool) -> Result<int, Error> {
    if p + 8 > d.len() {
        Err(eof())
    } else if is_cdda && be_at(d, p, 8) % 588 != 0 {
        Err(Error::DecodeError("Cuesheet track sample offset is not a multiple of 588 for CD-DA."))
    } else if p + 9 > d.len() {
        Err(eof())
    } else if d[p + 8] == 0 {
        Err(Error::DecodeError("Cuesheet track number of 0 not allowed."))
    } else if is_cdda && d[p + 8] > 99 && d[p + 8] != 170 {
        Err(Error::DecodeError("Cuesheet track numbers greater than 99 are not allowed for CD-DA."))
    } else if p + 21 > d.len() {
        Err(eof())
    } else if printable_ascii(d.subrange(p + 9, p + 21)) is None {
        Err(Error::DecodeError("Cuesheet track ISRC contains invalid characters."))
    } else if p + 23 > d.len() {
        Err(eof())
    } else if be_at(d, p + 21, 2) % 0x4000 != 0 {
        Err(Error::DecodeError("Cuesheet track reserved bits should be zero."))
    } else if p + 27 > d.len() {
        Err(eof())
    } else if be_at(d, p + 23, 4) != 0 {
        Err(Error::DecodeError("Cuesheet track reserved bits should be zero."))
    } else if p + 31 > d.len() {
        Err(eof())
    } else if be_at(d, p + 27, 4) != 0 {
        Err(Error::DecodeError("Cuesheet track reserved bits should be zero."))
    } else if p + 35 > d.len() {
        Err(eof())
    } else if be_at(d, p + 31, 4) != 0 {
        Err(Error::DecodeError("Cuesheet track reserved bits should be zero."))
    } else if p + 36 > d.len() {
        Err(eof())
    } else if is_cdda && d[p + 35] > 100 {
        Err(Error::DecodeError("Cuesheet track indicies cannot exceed 100 for CD-DA."))
    } else {
        match indices_status(d, p + 36, is_cdda, d[p + 35] as nat) {
            Err(e) => Err(e),
            Ok(_) => Ok(p + 36 + 12 * d[p + 35]),
        }
    }
}

/// The cue of a track read from byte `p` of `d`: its number, its offset, its ISRC as a tag, and
/// one point per index.
pub open spec fn cue_fields(c: Cue, d: Seq<u8>, p: int) -> bool {
    let n = d[p + 35] as int;
    &&& c.index == d[p + 8]
    &&& c.start_ts == be_at(d, p, 8)
    &&& c.tags@.len() == 1
    &&& c.tags@[0].std_key == Some(StandardTagKey::IdentIsrc)
    &&& c.tags@[0].key@ == "ISRC"@
    &&& c.tags@[0].value@ == printable_ascii(d.subrange(p + 9, p + 21)).unwrap()
    &&& c.points@.len() == n
    &&& forall|i: int|
        0 <= i < n ==> (#[trigger] c.points@[i]).start_offset_ts == be_at(d, p + 36 + 12 * i, 8)
            && c.points@[i].tags@.len() == 0
}

fn read_reserved_u32(reader: &mut BufStream) -> (r: Result<(), Error>)
    ensures
        final(reader).data() == old(reader).data(),
        ({
            let d = old(reader).data();
            let q = old(reader).position() as int;
            if q + 4 > d.len() {
                r == Err::<(), Error>(eof())
            } else if be_at(d, q, 4) != 0 {
                r == Err::<(), Error>(Error::DecodeError("Cuesheet track reserved bits should be zero."))
            } else {
                r is Ok && final(reader).position() == q + 4
            }
        }),
{
    if reader.read_be_u32()? != 0 {
        return decode_error("Cuesheet track reserved bits should be zero.");
    }
    Ok(())
}

/// Reads a cuesheet track and appends its cue to `cues`.
fn read_cuesheet_track(reader: &mut BufStream, is_cdda: bool, cues: &mut Vec<Cue>) -> (r: Result<(), Error>)
    ensures
        final(reader).data() == old(reader).data(),
        match track_status(old(reader).data(), old(reader).position() as int, is_cdda) {
            Ok(end) => {
                &&& r is Ok
                &&& final(reader).position() == end
                &&& final(cues)@.len() == old(cues)@.len() + 1
                &&& final(cues)@.take(old(cues)@.len() as int) == old(cues)@
                &&& cue_fields(final(cues)@.last(), old(reader).data(), old(reader).position() as int)
            },
            Err(e) => r == Err::<(), Error>(e) && final(cues)@ == old(cues)@,
        },
{
    let ghost d = reader.data();
    let ghost p = reader.position() as int;
    let n_offset_samples = reader.read_be_u64()?;
    // For a CD-DA cuesheet, the track sample offset is the same as the first index (INDEX 00 or
    // INDEX 01) on the CD. Therefore, the offset must be a multiple of 588 samples
    // (588 samples = 44100 samples/sec * 1/75th of a sec).
    if is_cdda && n_offset_samples % 588 != 0 {
        return decode_error("Cuesheet track sample offset is not a multiple of 588 for CD-DA.");
    }
    let number = reader.read_u8()? as u32;
    // A track number of 0 is disallowed in all cases. For CD-DA cuesheets, track 0 is reserved
    // for lead-in.
    if number == 0 {
        return decode_error("Cuesheet track number of 0 not allowed.");
    }
    // For CD-DA cuesheets, only track numbers 1-99 are allowed for regular tracks and 170 for
    // lead-out.
    if is_cdda && number > 99 && number != 170 {
        return decode_error("Cuesheet track numbers greater than 99 are not allowed for CD-DA.");
    }
    let mut isrc_buf = [0u8; 12];
    reader.read_buf_bytes(&mut isrc_buf)?;
    let isrc = match printable_ascii_to_string(&isrc_buf) {
        Some(s) => s,
        None => return decode_error("Cuesheet track ISRC contains invalid characters."),
    };
    // Next 14 bytes are reserved. However, the first two bits are flags.
    let flags = reader.read_be_u16()?;
    proof {
        assert(flags & 0x3fff == flags % 0x4000) by (bit_vector);
    }
    if flags & 0x3fff != 0 {
        return decode_error("Cuesheet track reserved bits should be zero.");
    }
    // Consume the remaining 12 bytes read in 3 u32 chunks.
    read_reserved_u32(reader)?;
    read_reserved_u32(reader)?;
    read_reserved_u32(reader)?;
    let n_indicies = reader.read_u8()? as usize;
    // For CD-DA cuesheets, the track index cannot exceed 100 indicies.
    if is_cdda && n_indicies > 100 {
        return decode_error("Cuesheet track indicies cannot exceed 100 for CD-DA.");
    }
    let mut tags: Vec<Tag> = Vec::new();
    // Push the ISRC as a tag.
    proof {
        reveal_strlit("ISRC");
    }
    tags.push(Tag::new(Some(StandardTagKey::IdentIsrc), "ISRC", isrc.as_str()));
    let ghost q0 = p + 36;
    assert(track_status(d, p, is_cdda) == match indices_status(d, q0, is_cdda, n_indicies as nat) {
        Err(e) => Err(e),
        Ok(_) => Ok(q0 + 12 * n_indicies),
    });
    let mut points: Vec<CuePoint> = Vec::new();
    let mut i: usize = 0;
    while i < n_indicies
        invariant
            reader.data() == d,
            d == old(reader).data(),
            p == old(reader).position(),
            q0 == p + 36,
            p + 36 <= d.len(),
            cues@ == old(cues)@,
            track_status(d, p, is_cdda) == match indices_status(d, q0, is_cdda, n_indicies as nat) {
                Err(e) => Err(e),
                Ok(_) => Ok(q0 + 12 * n_indicies),
            },
            n_indicies == d[p + 35],
            i <= n_indicies,
            points@.len() == i,
            reader.position() == q0 + 12 * i,
            indices_status(d, q0, is_cdda, i as nat) is Ok,
            forall|j: int|
                0 <= j < i ==> (#[trigger] points@[j]).start_offset_ts == be_at(d, q0 + 12 * j, 8)
                    && points@[j].tags@.len() == 0,
        decreases n_indicies - i,
    {
        let pt = match read_cuesheet_track_index(reader, is_cdda) {
            Ok(pt) => pt,
            Err(e) => {
                proof {
                    lemma_indices_err(d, q0, is_cdda, (i + 1) as nat, n_indicies as nat);
                }
                return Err(e);
            },
        };
        points.push(pt);
        i = i + 1;
    }
    cues.push(Cue { index: number, start_ts: n_offset_samples, tags, points });
    Ok(())
}

/// Reading `k` reserved big-endian 16-bit words from byte `q` of `d`: success, or the first error.
pub open spec fn reserved_status(d: Seq<u8>, q: int, k: nat) -> Result<(), Error>
    decreases k,
{
    if k == 0 {
        Ok(())
    } else {
        match reserved_status(d, q, (k - 1) as nat) {
            Err(e) => Err(e),
            Ok(_) => if q + 2 * k > d.len() {
                Err(eof())
            } else if be_at(d, q + 2 * (k - 1), 2) != 0 {
                Err(Error::DecodeError("Cuesheet reserved bits should be zero."))
            } else {
                Ok(())
            },
        }
    }
}

proof fn lemma_reserved_err(d: Seq<u8>, q: int, k: nat, n: nat)
    requires
        k <= n,
        reserved_status(d, q, k) is Err,
    ensures
        reserved_status(d, q, n) == reserved_status(d, q, k),
    decreases n - k,
{
    if k < n {
        lemma_reserved_err(d, q, k + 1, n);
    }
}

/// Reading the fixed part of a cuesheet block at byte `p` of `d`: whether it describes a CD-DA
/// disc and how many tracks follow, or the error.
pub open spec fn cuesheet_header_status(d: Seq<u8>, p: int) -> Result<(bool, nat), Error> {
    if p + 128 > d.len() {
        Err(eof())
    } else if printable_ascii(d.subrange(p, p + 128)) is None {
        Err(Error::DecodeError("Cuesheet catalog number contains invalid characters."))
    } else if p + 137 > d.len() {
        Err(eof())
    } else if d[p + 136] < 0x80 && be_at(d, p + 128, 8) > 0 {
        Err(Error::DecodeError("Cuesheet lead-in samples should be zero if not CD-DA."))
    } else if reserved_status(d, p + 137, 129) is Err {
        Err(reserved_status(d, p + 137, 129)->Err_0)
    } else if p + 396 > d.len() {
        Err(eof())
    } else if d[p + 395] == 0 {
        Err(Error::DecodeError("Cuesheet must have at-least one track."))
    } else if d[p + 136] >= 0x80 && d[p + 395] > 100 {
        Err(Error::DecodeError("Cuesheets for CD-DA must not have more than 100 tracks."))
    } else {
        Ok((d[p + 136] >= 0x80, d[p + 395] as nat))
    }
}

/// Reading `k` cuesheet tracks one after another from byte `q` of `d`: where the last ends, or
/// the first error.
pub open spec fn tracks_status(d: Seq<u8>, q: int, is_cdda: bool, k: nat) -> Result<int, Error>
    decreases k,
{
    if k == 0 {
        Ok(q)
    } else {
        match tracks_status(d, q, is_cdda, (k - 1) as nat) {
            Err(e) => Err(e),
            Ok(at) => track_status(d, at, is_cdda),
        }
    }
}

proof fn lemma_tracks_err(d: Seq<u8>, q: int, is_cdda: bool, k: nat, n: nat)
    requires
        k <= n,
        tracks_status(d, q, is_cdda, k) is Err,
    ensures
        tracks_status(d, q, is_cdda, n) == tracks_status(d, q, is_cdda, k),
    decreases n - k,
{
    if k < n {
        lemma_tracks_err(d, q, is_cdda, k + 1, n);
    }
}

/// Reads a cuesheet metadata block and appends one cue per track to `cues`.
pub fn read_cuesheet_block(reader: &mut BufStream, cues: &mut Vec<Cue>) -> (r: Result<(), Error>)
    ensures
        final(reader).data() == old(reader).data(),
        final(cues)@.len() >= old(cues)@.len(),
        final(cues)@.take(old(cues)@.len() as int) == old(cues)@,
        ({
            let d = old(reader).data();
            let p = old(reader).position() as int;
            let k = final(cues)@.len() - old(cues)@.len();
            match cuesheet_header_status(d, p) {
                Err(e) => r == Err::<(), Error>(e) && final(cues)@ == old(cues)@,
                Ok((is_cdda, n)) => {
                    &&& k <= n
                    &&& tracks_status(d, p + 396, is_cdda, k as nat) is Ok
                    &&& forall|j: int| 0 <= j < k ==> cue_fields(
                        #[trigger] final(cues)@[old(cues)@.len() + j],
                        d,
                        tracks_status(d, p + 396, is_cdda, j as nat)->Ok_0,
                    )
                    &&& match tracks_status(d, p + 396, is_cdda, n) {
                        Ok(end) => r is Ok && k == n && final(reader).position() == end,
                        Err(e) => r == Err::<(), Error>(e) && k < n
                            && tracks_status(d, p + 396, is_cdda, (k + 1) as nat) == Err::<int, Error>(e),
                    }
                },
            }
        }),
{
    let ghost d = reader.data();
    let ghost p = reader.position() as int;
    // The catalog number only allows printable ASCII characters.
    let mut catalog_number_buf = vec![0u8; 128];
    reader.read_buf_bytes(catalog_number_buf.as_mut_slice())?;
    assert(catalog_number_buf@ == d.subrange(p, p + 128));
    match printable_ascii_to_string(catalog_number_buf.as_slice()) {
        Some(_) => {},
        None => return decode_error("Cuesheet catalog number contains invalid characters."),
    }
    let n_lead_in_samples = reader.read_be_u64()?;
    // The top bit of the next byte is set for CD-DA cuesheets.
    let flag_byte = reader.read_u8()?;
    proof {
        assert((flag_byte & 0x80 == 0x80) == (flag_byte >= 0x80)) by (bit_vector);
    }
    let is_cdda = (flag_byte & 0x80) == 0x80;
    // Lead-in should be non-zero only for CD-DA cuesheets.
    if !is_cdda && n_lead_in_samples > 0 {
        return decode_error("Cuesheet lead-in samples should be zero if not CD-DA.");
    }
    // The next 258 bytes, read as 129 words, must be zero.
    let mut w: usize = 0;
    while w < 129
        invariant
            reader.data() == d,
            d == old(reader).data(),
            p == old(reader).position(),
            w <= 129,
            p + 137 <= d.len(),
            printable_ascii(d.subrange(p, p + 128)) is Some,
            !(d[p + 136] < 0x80 && be_at(d, p + 128, 8) > 0),
            reader.position() == p + 137 + 2 * w,
            reserved_status(d, p + 137, w as nat) is Ok,
        decreases 129 - w,
    {
        let word = match reader.read_be_u16() {
            Ok(v) => v,
            Err(e) => {
                proof {
                    lemma_reserved_err(d, p + 137, (w + 1) as nat, 129);
                }
                return Err(e);
            },
        };
        if word != 0 {
            proof {
                lemma_reserved_err(d, p + 137, (w + 1) as nat, 129);
            }
            return decode_error("Cuesheet reserved bits should be zero.");
        }
        w = w + 1;
    }
    let n_tracks = reader.read_u8()?;
    // There should be at least one track in the cuesheet.
    if n_tracks == 0 {
        return decode_error("Cuesheet must have at-least one track.");
    }
    // CD-DA cuesheets must have no more than 100 tracks (99 audio tracks and the lead-out).
    if is_cdda && n_tracks > 100 {
        return decode_error("Cuesheets for CD-DA must not have more than 100 tracks.");
    }
    assert(cuesheet_header_status(d, p) == Ok::<(bool, nat), Error>((is_cdda, n_tracks as nat)));
    let ghost q0 = p + 396;
    let ghost base = old(cues)@.len();
    let mut t: u8 = 0;
    while t < n_tracks
        invariant
            reader.data() == d,
            d == old(reader).data(),
            p == old(reader).position(),
            q0 == p + 396,
            base == old(cues)@.len(),
            cuesheet_header_status(d, p) == Ok::<(bool, nat), Error>((is_cdda, n_tracks as nat)),
            t <= n_tracks,
            cues@.len() == base + t,
            cues@.take(base as int) == old(cues)@,
            tracks_status(d, q0, is_cdda, t as nat) == Ok::<int, Error>(reader.position() as int),
            forall|j: int| 0 <= j < t ==> cue_fields(
                #[trigger] cues@[base + j],
                d,
                tracks_status(d, q0, is_cdda, j as nat)->Ok_0,
            ),
        decreases n_tracks - t,
    {
        let ghost before = cues@;
        let ghost at = reader.position() as int;
        match read_cuesheet_track(reader, is_cdda, cues) {
            Ok(()) => {},
            Err(e) => {
                proof {
                    lemma_tracks_err(d, q0, is_cdda, (t + 1) as nat, n_tracks as nat);
                }
                return Err(e);
            },
        }
        proof {
            assert forall|j: int| 0 <= j < t + 1 implies cue_fields(
                #[trigger] cues@[base + j],
                d,
                tracks_status(d, q0, is_cdda, j as nat)->Ok_0,
            ) by {
                if j < t {
                    assert(cues@[base + j] == before[base + j]);
                }
            }
            assert(cues@.take(base as int) =~= old(cues)@) by {
                assert(cues@.take(before.len() as int) == before);
            }
        }
        t = t + 1;
    }
    Ok(())
}

} // verus!
