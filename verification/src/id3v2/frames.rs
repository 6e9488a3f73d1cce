//! ID3v2 frames: frame headers, the frames that have a parser, and text frames.

use vstd::prelude::*;
use encoding_rs::UTF_16BE;
use crate::errors::{Error, IoErrorKind, decode_error, unsupported_error};
use crate::flac::metadata::ascii_str;
use vstd::arithmetic::power2::lemma2_to64;
use crate::id3v2::{syncsafe, unsync_from, decode_unsynchronisation, read_syncsafe_leq32, lemma_syncsafe_bound};
use crate::io::{BufStream, eof, be_val, scan_stop};
use crate::tags::Tag;

verus! {

/// The result of parsing a frame.
pub enum FrameResult {
    /// Padding was encountered instead of a frame.
    Padding,
    /// An unknown frame was found and its body skipped.
    UnsupportedFrame,
    /// A frame was parsed and yielded a single `Tag`.
    Tag(Tag),
    /// A frame was parsed and yielded many `Tag`s.
    MultipleTags(Vec<Tag>),
}

/// The text encodings of ID3v2 text frames.
#[derive(Copy, Clone, Debug, PartialEq, Eq, Structural)]
pub enum Encoding {
    /// ISO-8859-1, terminated by 0x00.
    Iso8859_1,
    /// UTF-16 with a byte order mark, terminated by 0x00 0x00.
    Utf16Bom,
    /// UTF-16BE without a byte order mark, terminated by 0x00 0x00.
    Utf16Be,
    /// UTF-8, terminated by 0x00.
    Utf8,
}

/// The encoding a text frame's first byte selects.
pub open spec fn encoding_of(b: u8) -> Option<Encoding> {
    if b == 0 {
        Some(Encoding::Iso8859_1)
    } else if b == 1 {
        Some(Encoding::Utf16Bom)
    } else if b == 2 {
        Some(Encoding::Utf16Be)
    } else if b == 3 {
        Some(Encoding::Utf8)
    } else {
        None
    }
}

impl Encoding {
    /// The encoding a text frame's first byte selects, if any.
    pub fn parse(encoding: u8) -> (r: Option<Encoding>)
        ensures
            r == encoding_of(encoding),
    {
        match encoding {
            0 => Some(Encoding::Iso8859_1),
            1 => Some(Encoding::Utf16Bom),
            2 => Some(Encoding::Utf16Be),
            3 => Some(Encoding::Utf8),
            _ => None,
        }
    }
}

/// The frame identifiers of ID3v2.3 and ID3v2.4 that have a parser: the text frames.
pub open spec fn text_frame_id(a: u8, b: u8, c: u8, d: u8) -> bool {
    (a == 84 && b == 65 && c == 76 && d == 66)
        || (a == 84 && b == 66 && c == 80 && d == 77)
        || (a == 84 && b == 67 && c == 79 && d == 77)
        || (a == 84 && b == 67 && c == 79 && d == 78)
        || (a == 84 && b == 67 && c == 79 && d == 80)
        || (a == 84 && b == 68 && c == 65 && d == 84)
        || (a == 84 && b == 68 && c == 69 && d == 78)
        || (a == 84 && b == 68 && c == 76 && d == 89)
        || (a == 84 && b == 68 && c == 79 && d == 82)
        || (a == 84 && b == 68 && c == 82 && d == 67)
        || (a == 84 && b == 68 && c == 82 && d == 76)
        || (a == 84 && b == 68 && c == 84 && d == 71)
        || (a == 84 && b == 69 && c == 78 && d == 67)
        || (a == 84 && b == 69 && c == 88 && d == 84)
        || (a == 84 && b == 70 && c == 76 && d == 84)
        || (a == 84 && b == 73 && c == 77 && d == 69)
        || (a == 84 && b == 73 && c == 80 && d == 76)
        || (a == 84 && b == 73 && c == 84 && d == 49)
        || (a == 84 && b == 73 && c == 84 && d == 50)
        || (a == 84 && b == 73 && c == 84 && d == 51)
        || (a == 84 && b == 75 && c == 69 && d == 89)
        || (a == 84 && b == 76 && c == 65 && d == 78)
        || (a == 84 && b == 76 && c == 69 && d == 78)
        || (a == 84 && b == 77 && c == 67 && d == 76)
        || (a == 84 && b == 77 && c == 69 && d == 68)
        || (a == 84 && b == 77 && c == 79 && d == 79)
        || (a == 84 && b == 79 && c == 65 && d == 76)
        || (a == 84 && b == 79 && c == 70 && d == 78)
        || (a == 84 && b == 79 && c == 76 && d == 89)
        || (a == 84 && b == 79 && c == 80 && d == 69)
        || (a == 84 && b == 79 && c == 82 && d == 89)
        || (a == 84 && b == 79 && c == 87 && d == 78)
        || (a == 84 && b == 80 && c == 69 && d == 49)
        || (a == 84 && b == 80 && c == 69 && d == 50)
        || (a == 84 && b == 80 && c == 69 && d == 51)
        || (a == 84 && b == 80 && c == 69 && d == 52)
        || (a == 84 && b == 80 && c == 79 && d == 83)
        || (a == 84 && b == 80 && c == 82 && d == 79)
        || (a == 84 && b == 80 && c == 85 && d == 66)
        || (a == 84 && b == 82 && c == 67 && d == 75)
        || (a == 84 && b == 82 && c == 68 && d == 65)
        || (a == 84 && b == 82 && c == 83 && d == 78)
        || (a == 84 && b == 82 && c == 83 && d == 79)
        || (a == 84 && b == 83 && c == 73 && d == 90)
        || (a == 84 && b == 83 && c == 79 && d == 65)
        || (a == 84 && b == 83 && c == 79 && d == 80)
        || (a == 84 && b == 83 && c == 79 && d == 84)
        || (a == 84 && b == 83 && c == 82 && d == 67)
        || (a == 84 && b == 83 && c == 83 && d == 69)
        || (a == 84 && b == 88 && c == 88 && d == 88)
        || (a == 84 && b == 89 && c == 69 && d == 82)
}

/// The ID3v2.2 frame identifiers whose later equivalent has a parser.
pub open spec fn legacy_text_frame_id(a: u8, b: u8, c: u8) -> bool {
    (a == 84 && b == 65 && c == 76)
        || (a == 84 && b == 66 && c == 80)
        || (a == 84 && b == 67 && c == 77)
        || (a == 84 && b == 67 && c == 79)
        || (a == 84 && b == 67 && c == 82)
        || (a == 84 && b == 68 && c == 65)
        || (a == 84 && b == 68 && c == 89)
        || (a == 84 && b == 69 && c == 78)
        || (a == 84 && b == 70 && c == 84)
        || (a == 84 && b == 73 && c == 77)
        || (a == 84 && b == 75 && c == 69)
        || (a == 84 && b == 76 && c == 65)
        || (a == 84 && b == 76 && c == 69)
        || (a == 84 && b == 77 && c == 84)
        || (a == 84 && b == 79 && c == 65)
        || (a == 84 && b == 79 && c == 70)
        || (a == 84 && b == 79 && c == 76)
        || (a == 84 && b == 79 && c == 82)
        || (a == 84 && b == 79 && c == 84)
        || (a == 84 && b == 80 && c == 49)
        || (a == 84 && b == 80 && c == 50)
        || (a == 84 && b == 80 && c == 51)
        || (a == 84 && b == 80 && c == 52)
        || (a == 84 && b == 80 && c == 65)
        || (a == 84 && b == 80 && c == 66)
        || (a == 84 && b == 82 && c == 67)
        || (a == 84 && b == 82 && c == 68)
        || (a == 84 && b == 82 && c == 75)
        || (a == 84 && b == 83 && c == 73)
        || (a == 84 && b == 83 && c == 83)
        || (a == 84 && b == 84 && c == 49)
        || (a == 84 && b == 84 && c == 50)
        || (a == 84 && b == 84 && c == 51)
        || (a == 84 && b == 88 && c == 84)
        || (a == 84 && b == 88 && c == 88)
        || (a == 84 && b == 89 && c == 69)
}

/// Whether the frame identifier `a b c d` has a parser.
fn find_parser(a: u8, b: u8, c: u8, d: u8) -> (r: bool)
    ensures
        r == text_frame_id(a, b, c, d),
{
    (a == 84 && b == 65 && c == 76 && d == 66)
        || (a == 84 && b == 66 && c == 80 && d == 77)
        || (a == 84 && b == 67 && c == 79 && d == 77)
        || (a == 84 && b == 67 && c == 79 && d == 78)
        || (a == 84 && b == 67 && c == 79 && d == 80)
        || (a == 84 && b == 68 && c == 65 && d == 84)
        || (a == 84 && b == 68 && c == 69 && d == 78)
        || (a == 84 && b == 68 && c == 76 && d == 89)
        || (a == 84 && b == 68 && c == 79 && d == 82)
        || (a == 84 && b == 68 && c == 82 && d == 67)
        || (a == 84 && b == 68 && c == 82 && d == 76)
        || (a == 84 && b == 68 && c == 84 && d == 71)
        || (a == 84 && b == 69 && c == 78 && d == 67)
        || (a == 84 && b == 69 && c == 88 && d == 84)
        || (a == 84 && b == 70 && c == 76 && d == 84)
        || (a == 84 && b == 73 && c == 77 && d == 69)
        || (a == 84 && b == 73 && c == 80 && d == 76)
        || (a == 84 && b == 73 && c == 84 && d == 49)
        || (a == 84 && b == 73 && c == 84 && d == 50)
        || (a == 84 && b == 73 && c == 84 && d == 51)
        || (a == 84 && b == 75 && c == 69 && d == 89)
        || (a == 84 && b == 76 && c == 65 && d == 78)
        || (a == 84 && b == 76 && c == 69 && d == 78)
        || (a == 84 && b == 77 && c == 67 && d == 76)
        || (a == 84 && b == 77 && c == 69 && d == 68)
        || (a == 84 && b == 77 && c == 79 && d == 79)
        || (a == 84 && b == 79 && c == 65 && d == 76)
        || (a == 84 && b == 79 && c == 70 && d == 78)
        || (a == 84 && b == 79 && c == 76 && d == 89)
        || (a == 84 && b == 79 && c == 80 && d == 69)
        || (a == 84 && b == 79 && c == 82 && d == 89)
        || (a == 84 && b == 79 && c == 87 && d == 78)
        || (a == 84 && b == 80 && c == 69 && d == 49)
        || (a == 84 && b == 80 && c == 69 && d == 50)
        || (a == 84 && b == 80 && c == 69 && d == 51)
        || (a == 84 && b == 80 && c == 69 && d == 52)
        || (a == 84 && b == 80 && c == 79 && d == 83)
        || (a == 84 && b == 80 && c == 82 && d == 79)
        || (a == 84 && b == 80 && c == 85 && d == 66)
        || (a == 84 && b == 82 && c == 67 && d == 75)
        || (a == 84 && b == 82 && c == 68 && d == 65)
        || (a == 84 && b == 82 && c == 83 && d == 78)
        || (a == 84 && b == 82 && c == 83 && d == 79)
        || (a == 84 && b == 83 && c == 73 && d == 90)
        || (a == 84 && b == 83 && c == 79 && d == 65)
        || (a == 84 && b == 83 && c == 79 && d == 80)
        || (a == 84 && b == 83 && c == 79 && d == 84)
        || (a == 84 && b == 83 && c == 82 && d == 67)
        || (a == 84 && b == 83 && c == 83 && d == 69)
        || (a == 84 && b == 88 && c == 88 && d == 88)
        || (a == 84 && b == 89 && c == 69 && d == 82)
}

/// Whether the ID3v2.2 frame identifier `a b c` has a parser, through its later equivalent.
fn find_parser_legacy(a: u8, b: u8, c: u8) -> (r: bool)
    ensures
        r == legacy_text_frame_id(a, b, c),
{
    (a == 84 && b == 65 && c == 76)
        || (a == 84 && b == 66 && c == 80)
        || (a == 84 && b == 67 && c == 77)
        || (a == 84 && b == 67 && c == 79)
        || (a == 84 && b == 67 && c == 82)
        || (a == 84 && b == 68 && c == 65)
        || (a == 84 && b == 68 && c == 89)
        || (a == 84 && b == 69 && c == 78)
        || (a == 84 && b == 70 && c == 84)
        || (a == 84 && b == 73 && c == 77)
        || (a == 84 && b == 75 && c == 69)
        || (a == 84 && b == 76 && c == 65)
        || (a == 84 && b == 76 && c == 69)
        || (a == 84 && b == 77 && c == 84)
        || (a == 84 && b == 79 && c == 65)
        || (a == 84 && b == 79 && c == 70)
        || (a == 84 && b == 79 && c == 76)
        || (a == 84 && b == 79 && c == 82)
        || (a == 84 && b == 79 && c == 84)
        || (a == 84 && b == 80 && c == 49)
        || (a == 84 && b == 80 && c == 50)
        || (a == 84 && b == 80 && c == 51)
        || (a == 84 && b == 80 && c == 52)
        || (a == 84 && b == 80 && c == 65)
        || (a == 84 && b == 80 && c == 66)
        || (a == 84 && b == 82 && c == 67)
        || (a == 84 && b == 82 && c == 68)
        || (a == 84 && b == 82 && c == 75)
        || (a == 84 && b == 83 && c == 73)
        || (a == 84 && b == 83 && c == 83)
        || (a == 84 && b == 84 && c == 49)
        || (a == 84 && b == 84 && c == 50)
        || (a == 84 && b == 84 && c == 51)
        || (a == 84 && b == 88 && c == 84)
        || (a == 84 && b == 88 && c == 88)
        || (a == 84 && b == 89 && c == 69)
}

/// The text of its bytes given by the `String::from_utf8_lossy` function of std.
pub uninterp spec fn utf8_lossy_text(b: Seq<u8>) -> Seq<char>;

/// The text `encoding_rs::UTF_16BE.decode` gives for bytes, with a byte order mark honoured.
pub uninterp spec fn utf16be_text(b: Seq<u8>) -> Seq<char>;

/// Calls `String::from_utf8_lossy` of std, which replaces each invalid sequence by U+FFFD. Its
/// result is named, and depends on the bytes alone.
#[verifier::external_body]
fn utf8_lossy(data: &[u8]) -> (r: String)
    ensures
        r@ == utf8_lossy_text(data@),
{
    String::from_utf8_lossy(data).into_owned()
}

/// Calls `decode` of `encoding_rs::UTF_16BE`, which decodes UTF-16 big-endian unless a byte
/// order mark names another encoding, and replaces malformed sequences by U+FFFD. Its result is
/// named, and depends on the bytes alone.
#[verifier::external_body]
fn utf16be_decode(data: &[u8]) -> (r: String)
    ensures
        r@ == utf16be_text(data@),
{
    UTF_16BE.decode(data).0.into_owned()
}

/// Calls `String::from_iter` of std on characters, which gives the string of them in order.
#[verifier::external_body]
fn chars_to_string(chars: &Vec<char>) -> (r: String)
    ensures
        r@ == chars@,
{
    String::from_iter(chars.iter())
}

/// The ISO-8859-1 characters of `s` from 0x20 on, in order.
pub open spec fn latin1_text(s: Seq<u8>) -> Seq<char>
    decreases s.len(),
{
    if s.len() == 0 {
        seq![]
    } else if s.last() > 0x1f {
        latin1_text(s.drop_last()).push(s.last() as char)
    } else {
        latin1_text(s.drop_last())
    }
}

/// `s` without its trailing zero bytes.
pub open spec fn trim_nul(s: Seq<u8>) -> Seq<u8>
    decreases s.len(),
{
    if s.len() > 0 && s.last() == 0 {
        trim_nul(s.drop_last())
    } else {
        s
    }
}

/// `s` without its trailing pairs of zero bytes.
pub open spec fn trim_nul_pairs(s: Seq<u8>) -> Seq<u8>
    decreases s.len(),
{
    if s.len() > 1 && s[s.len() - 2] == 0 && s[s.len() - 1] == 0 {
        trim_nul_pairs(s.subrange(0, s.len() - 2))
    } else {
        s
    }
}

/// The text of the encoded bytes `s`, without their null terminators.
pub open spec fn text_of(encoding: Encoding, s: Seq<u8>) -> Seq<char> {
    match encoding {
        Encoding::Iso8859_1 => latin1_text(s),
        Encoding::Utf8 => utf8_lossy_text(trim_nul(s)),
        _ => utf16be_text(trim_nul_pairs(s)),
    }
}

/// Decodes a slice of bytes containing encoded text into a `String`. Trailing null terminators
/// are removed; invalid ISO-8859-1 characters are dropped, and invalid UTF-8 or UTF-16 sequences
/// are replaced by U+FFFD.
pub fn decode_text(encoding: Encoding, data: &[u8]) -> (r: String)
    ensures
        r@ == text_of(encoding, data@),
{
    match encoding {
        Encoding::Iso8859_1 => {
            // Only ISO-8859-1 characters from 0x20 on are valid.
            let mut chars: Vec<char> = Vec::new();
            let mut i: usize = 0;
            while i < data.len()
                invariant
                    i <= data@.len(),
                    chars@ == latin1_text(data@.take(i as int)),
                decreases data@.len() - i,
            {
                assert(data@.take(i + 1).drop_last() =~= data@.take(i as int));
                if data[i] > 0x1f {
                    chars.push(data[i] as char);
                }
                i = i + 1;
            }
            assert(data@.take(i as int) =~= data@);
            assert(chars@ == latin1_text(data@));
            let r = chars_to_string(&chars);
            assert(r@ == text_of(encoding, data@));
            return r;
        },
        Encoding::Utf8 => {
            // Remove any trailing null terminators.
            let mut end: usize = data.len();
            assert(data@.take(end as int) =~= data@);
            while end > 0
                invariant
                    end <= data@.len(),
                    trim_nul(data@) == trim_nul(data@.take(end as int)),
                ensures
                    end <= data@.len(),
                    trim_nul(data@) == trim_nul(data@.take(end as int)),
                    end == 0 || data@[end - 1] != 0,
                decreases end,
            {
                if data[end - 1] != 0 {
                    break;
                }
                assert(data@.take(end as int).drop_last() =~= data@.take(end - 1));
                end = end - 1;
            }
            let body = &data[0..end];
            assert(body@ =~= data@.take(end as int));
            assert(end > 0 ==> body@.last() == data@[end - 1]);
            assert(trim_nul(body@) == body@);
            utf8_lossy(body)
        },
        _ => {
            // Remove any trailing pairs of null bytes.
            let mut end: usize = data.len();
            assert(data@.take(end as int) =~= data@);
            while end > 1
                invariant
                    end <= data@.len(),
                    trim_nul_pairs(data@) == trim_nul_pairs(data@.take(end as int)),
                ensures
                    end <= data@.len(),
                    trim_nul_pairs(data@) == trim_nul_pairs(data@.take(end as int)),
                    end <= 1 || data@[end - 2] != 0 || data@[end - 1] != 0,
                decreases end,
            {
                if data[end - 2] != 0 || data[end - 1] != 0 {
                    break;
                }
                assert(data@.take(end as int).subrange(0, end - 2) =~= data@.take(end - 2));
                end = end - 2;
            }
            let body = &data[0..end];
            assert(body@ =~= data@.take(end as int));
            assert(end > 1 ==> body@[end - 2] == data@[end - 2] && body@[end - 1] == data@[end - 1]);
            assert(trim_nul_pairs(body@) == body@);
            utf16be_decode(body)
        },
    }
}

/// The null terminator of text fields in `encoding`.
pub open spec fn terminator(encoding: Encoding) -> Seq<u8> {
    match encoding {
        Encoding::Iso8859_1 | Encoding::Utf8 => seq![0u8],
        _ => seq![0u8, 0u8],
    }
}

/// A scan for a pattern stops at or after where it starts.
pub proof fn lemma_scan_stop_ge(s: Seq<u8>, pattern: Seq<u8>, align: nat, end: int, i: int)
    ensures
        scan_stop(s, pattern, align, end, i) >= i,
    decreases (if i < end { end - i } else { 0 }),
{
    if align != 0 && i < end && s.subrange(i - pattern.len(), i) != pattern {
        lemma_scan_stop_ge(s, pattern, align, end, i + align);
    }
}

/// The text fields of `d` from byte `p` on: each runs up to and including its null terminator,
/// aligned to the terminator's size, or to the end of `d`. Fewer bytes than a terminator left
/// is an error.
pub open spec fn text_fields(d: Seq<u8>, p: int, encoding: Encoding) -> Result<Seq<Seq<u8>>, Error>
    decreases d.len() - p,
{
    if p < 0 || p >= d.len() {
        Ok(seq![])
    } else if d.len() - p < terminator(encoding).len() {
        Err(eof())
    } else {
        let t = terminator(encoding);
        let stop = scan_stop(d, t, t.len(), d.len() as int, p + t.len());
        let q = if stop < d.len() { stop } else { d.len() as int };
        proof {
            lemma_scan_stop_ge(d, t, t.len(), d.len() as int, p + t.len());
        }
        match text_fields(d, q, encoding) {
            Ok(rest) => Ok(seq![d.subrange(p, q)] + rest),
            Err(e) => Err(e),
        }
    }
}

/// A text frame from byte `p` of `d`: its encoding byte, then its text fields.
pub open spec fn text_frame(d: Seq<u8>, p: int) -> Result<(Encoding, Seq<Seq<u8>>), Error> {
    if p < 0 || p >= d.len() {
        Err(eof())
    } else {
        match encoding_of(d[p]) {
            None => Err(Error::DecodeError("Invalid text encoding.")),
            Some(encoding) => match text_fields(d, p + 1, encoding) {
                Ok(fields) => Ok((encoding, fields)),
                Err(e) => Err(e),
            },
        }
    }
}

/// The tags of text fields: one per field, keyed by `key`, valued by the field's text.
pub open spec fn tags_of(tags: Seq<Tag>, key: Seq<char>, encoding: Encoding, fields: Seq<Seq<u8>>) -> bool {
    &&& tags.len() == fields.len()
    &&& forall|i: int|
        0 <= i < tags.len() ==> {
            &&& (#[trigger] tags[i]).std_key is None
            &&& tags[i].key@ == key
            &&& tags[i].value@ == text_of(encoding, fields[i])
        }
}

/// Whether `r` is the result of parsing the text frame at byte `p` of `d` with the key `key`.
pub open spec fn text_frame_result(r: Result<FrameResult, Error>, key: Seq<char>, d: Seq<u8>, p: int) -> bool {
    match text_frame(d, p) {
        Ok((encoding, fields)) => r matches Ok(FrameResult::MultipleTags(tags)) && tags_of(
            tags@,
            key,
            encoding,
            fields,
        ),
        Err(e) => r matches Err(e2) && e2 == e,
    }
}

/// Reads a text frame: its encoding, then one or more text fields, each terminated by a null
/// terminator, or running to the end of the frame. Each field gives a tag keyed by `id`.
pub fn read_text_frame(reader: &mut BufStream, id: &str, len: usize) -> (r: Result<FrameResult, Error>)
    requires
        old(reader).position() + len == old(reader).data().len(),
        old(reader).data().len() + 2 <= usize::MAX,
    ensures
        final(reader).data() == old(reader).data(),
        text_frame_result(r, id@, old(reader).data(), old(reader).position() as int),
{
    let ghost d = reader.data();
    let ghost p0 = reader.position() as int;
    // The first byte of the frame is the encoding.
    let b = reader.read_byte()?;
    let encoding = match Encoding::parse(b) {
        Some(encoding) => encoding,
        None => return decode_error("Invalid text encoding."),
    };
    let mut len = len - 1;
    let mut tags = Vec::<Tag>::new();
    let ghost target = text_fields(d, p0 + 1, encoding);
    let ghost mut done: Seq<Seq<u8>> = seq![];
    let single: [u8; 1] = [0];
    let double: [u8; 2] = [0, 0];
    assert(single@ =~= seq![0u8]);
    assert(double@ =~= seq![0u8, 0u8]);
    // The remainder of the frame is one or more null-terminated strings.
    while len > 0
        invariant
            reader.data() == d,
            d == old(reader).data(),
            p0 == old(reader).position(),
            0 <= p0 < d.len(),
            encoding_of(d[p0]) == Some(encoding),
            reader.position() + len == d.len(),
            d.len() + 2 <= usize::MAX,
            0 <= p0 + 1 <= reader.position(),
            single@ == seq![0u8],
            double@ == seq![0u8, 0u8],
            target == text_fields(d, p0 + 1, encoding),
            target == match text_fields(d, reader.position() as int, encoding) {
                Ok(rest) => Ok(done + rest),
                Err(e) => Err::<Seq<Seq<u8>>, Error>(e),
            },
            tags_of(tags@, id@, encoding, done),
        decreases len,
    {
        let ghost p = reader.position() as int;
        let data = match encoding {
            Encoding::Iso8859_1 | Encoding::Utf8 => {
                reader.scan_bytes_aligned_ref(&single, 1, len)?
            },
            _ => {
                if len < 2 {
                    return Err(Error::IoError(IoErrorKind::UnexpectedEof));
                }
                reader.scan_bytes_aligned_ref(&double, 2, len)?
            },
        };
        proof {
            let t = terminator(encoding);
            lemma_scan_stop_ge(d, t, t.len(), d.len() as int, p + t.len());
        }
        len = len - data.len();
        let text = decode_text(encoding, data);
        let tag = Tag::new(None, id, text.as_str());
        tags.push(tag);
        proof {
            let ghost old_done = done;
            done = done.push(data@);
            assert(old_done + seq![data@] =~= done);
            match text_fields(d, reader.position() as int, encoding) {
                Ok(rest) => {
                    assert(old_done + (seq![data@] + rest) =~= done + rest);
                },
                Err(e) => {},
            }
        }
    }
    proof {
        assert(done + Seq::<Seq<u8>>::empty() =~= done);
    }
    Ok(FrameResult::MultipleTags(tags))
}

/// What a frame holds, as read from its header: padding, a frame without a parser, or a text
/// frame with its identifier and its body.
pub enum FrameBody {
    Padding,
    Unsupported,
    Text(Seq<u8>, Seq<u8>),
}

/// Reading an ID3v2.2 frame from byte `p` of `d`: what it holds and where it ends, or the error.
/// An all-zero identifier is padding; the body of a frame without a parser is skipped.
pub open spec fn frame_v2(d: Seq<u8>, p: int) -> Result<(FrameBody, int), Error> {
    if p + 3 > d.len() {
        Err(eof())
    } else if d[p] == 0 && d[p + 1] == 0 && d[p + 2] == 0 {
        Ok((FrameBody::Padding, p + 3))
    } else if p + 6 > d.len() {
        Err(eof())
    } else {
        let size = be_val(d.subrange(p + 3, p + 6)) as int;
        if p + 6 + size > d.len() {
            Err(eof())
        } else if legacy_text_frame_id(d[p], d[p + 1], d[p + 2]) {
            Ok((FrameBody::Text(d.subrange(p, p + 3), d.subrange(p + 6, p + 6 + size)), p + 6 + size))
        } else {
            Ok((FrameBody::Unsupported, p + 6 + size))
        }
    }
}

/// The part of an ID3v2.3 or ID3v2.4 frame after its flags, from byte `q` of `d`, with the
/// frame's size `size` and flags byte `flags`: a group identifier byte, then, in version 4, a
/// data length indicator, both taken out of the size (a size too small for them reads past the
/// end), then the body, unsynchronised in version 4 if the flags say so.
pub open spec fn frame_rest(d: Seq<u8>, id: Seq<u8>, q: int, size: int, flags: u8, version: u8) -> Result<(FrameBody, int), Error> {
    let group = if version == 3 { flags & 0x20 != 0 } else { flags & 0x40 != 0 };
    let dli = version == 4 && flags & 0x01 != 0;
    if group && q + 1 > d.len() {
        Err(eof())
    } else if group && size < 1 {
        Err(eof())
    } else {
        let q1 = if group { q + 1 } else { q };
        let s1 = if group { size - 1 } else { size };
        if dli && q1 + 4 > d.len() {
            Err(eof())
        } else if dli && s1 < 4 {
            Err(eof())
        } else {
            let q2 = if dli { q1 + 4 } else { q1 };
            let s2 = if dli { s1 - 4 } else { s1 };
            if q2 + s2 > d.len() {
                Err(eof())
            } else {
                let raw = d.subrange(q2, q2 + s2);
                let body = if version == 4 && flags & 0x02 != 0 { unsync_from(raw, 0) } else { raw };
                Ok((FrameBody::Text(id, body), q2 + s2))
            }
        }
    }
}

/// Reading an ID3v2.3 or ID3v2.4 frame from byte `p` of `d`: what it holds and where it ends,
/// or the error. An all-zero identifier is padding; the body of a frame without a parser is
/// skipped; compressed frames, and encrypted ones in version 4, are skipped and refused.
pub open spec fn frame_v34(d: Seq<u8>, p: int, version: u8) -> Result<(FrameBody, int), Error> {
    if p + 4 > d.len() {
        Err(eof())
    } else if d[p] == 0 && d[p + 1] == 0 && d[p + 2] == 0 && d[p + 3] == 0 {
        Ok((FrameBody::Padding, p + 4))
    } else if p + 10 > d.len() {
        Err(eof())
    } else {
        let size: int = if version == 3 {
            be_val(d.subrange(p + 4, p + 8)) as int
        } else {
            syncsafe(d, p + 4, 4) as int
        };
        let flags = d[p + 9];
        let skipped = if p + 10 + size > d.len() { Err(eof()) } else { Ok(p + 10 + size) };
        if !text_frame_id(d[p], d[p + 1], d[p + 2], d[p + 3]) {
            match skipped {
                Err(e) => Err(e),
                Ok(q) => Ok((FrameBody::Unsupported, q)),
            }
        } else if (version == 3 && flags & 0x80 != 0) || (version == 4 && flags & 0x08 != 0) {
            match skipped {
                Err(e) => Err(e),
                Ok(_) => Err(Error::Unsupported("Compression is not supported.")),
            }
        } else if version == 4 && flags & 0x04 != 0 {
            match skipped {
                Err(e) => Err(e),
                Ok(_) => Err(Error::Unsupported("Encryption is not supported.")),
            }
        } else {
            frame_rest(d, d.subrange(p, p + 4), p + 10, size, flags, version)
        }
    }
}

/// Whether `r` is the result of reading a frame that holds `body`, the reader ending at
/// position `end`.
pub open spec fn frame_result(r: Result<FrameResult, Error>, body: FrameBody, end: int, pos: int) -> bool {
    match body {
        FrameBody::Padding => r matches Ok(FrameResult::Padding) && pos == end,
        FrameBody::Unsupported => r matches Ok(FrameResult::UnsupportedFrame) && pos == end,
        FrameBody::Text(id, data) => pos == end && text_frame_result(
            r,
            id.map_values(|c: u8| c as char),
            data,
            0,
        ),
    }
}

/// Reads an ID3v2.2 frame: its identifier, then, unless it is padding, its size and body. A
/// frame without a parser is skipped; a text frame is parsed into tags keyed by its identifier.
pub fn read_id3v2p2_frame(reader: &mut BufStream) -> (r: Result<FrameResult, Error>)
    requires
        old(reader).data().len() + 2 <= usize::MAX,
    ensures
        final(reader).data() == old(reader).data(),
        match frame_v2(old(reader).data(), old(reader).position() as int) {
            Err(e) => r matches Err(e2) && e2 == e,
            Ok((body, end)) => frame_result(r, body, end, final(reader).position() as int),
        },
{
    let ghost d = reader.data();
    let ghost p = reader.position() as int;
    let id = reader.read_boxed_slice_bytes(3)?;
    // Is this padding?
    if id[0] == 0 && id[1] == 0 && id[2] == 0 {
        return Ok(FrameResult::Padding);
    }
    let size = reader.read_be_u24()? as usize;
    // Find a parser for the frame. If there is none, skip over the remainder of the frame as it
    // cannot be parsed.
    if !find_parser_legacy(id[0], id[1], id[2]) {
        reader.ignore_bytes(size as u64)?;
        return Ok(FrameResult::UnsupportedFrame);
    }
    let data = reader.read_boxed_slice_bytes(size)?;
    let key = ascii_str(id.as_slice());
    let mut body = BufStream::new(data.as_slice());
    read_text_frame(&mut body, key, data.len())
}

/// Reads an ID3v2.3 or ID3v2.4 frame.
fn read_frame_v34(reader: &mut BufStream, version: u8) -> (r: Result<FrameResult, Error>)
    requires
        version == 3 || version == 4,
        old(reader).data().len() + 2 <= usize::MAX,
    ensures
        final(reader).data() == old(reader).data(),
        match frame_v34(old(reader).data(), old(reader).position() as int, version) {
            Err(e) => r matches Err(e2) && e2 == e,
            Ok((body, end)) => frame_result(r, body, end, final(reader).position() as int),
        },
{
    let ghost d = reader.data();
    let ghost p = reader.position() as int;
    let id = reader.read_boxed_slice_bytes(4)?;
    if id[0] == 0 && id[1] == 0 && id[2] == 0 && id[3] == 0 {
        return Ok(FrameResult::Padding);
    }
    let size32 = if version == 3 {
        reader.read_be_u32()?
    } else {
        read_syncsafe_leq32(reader, 28)?
    };
    proof {
        lemma_syncsafe_bound(d, p + 4, 4);
        lemma2_to64();
    }
    let mut size = size32 as usize;
    let flag_bytes = reader.read_boxed_slice_bytes(2)?;
    let flags = flag_bytes[1];
    // Find a parser for the frame. If there is none, skip over the remainder of the frame as it
    // cannot be parsed.
    if !find_parser(id[0], id[1], id[2], id[3]) {
        reader.ignore_bytes(size as u64)?;
        return Ok(FrameResult::UnsupportedFrame);
    }
    // Frame compression, an unsupported feature.
    if (version == 3 && flags & 0x80 != 0) || (version == 4 && flags & 0x08 != 0) {
        reader.ignore_bytes(size as u64)?;
        return unsupported_error("Compression is not supported.");
    }
    // Frame encryption, an unsupported feature.
    if version == 4 && flags & 0x04 != 0 {
        reader.ignore_bytes(size as u64)?;
        return unsupported_error("Encryption is not supported.");
    }
    // Frame group identifier. A frame too small for it reads past the end.
    if (version == 3 && flags & 0x20 != 0) || (version == 4 && flags & 0x40 != 0) {
        reader.read_byte()?;
        if size < 1 {
            return Err(Error::IoError(IoErrorKind::UnexpectedEof));
        }
        size = size - 1;
    }
    // The data length indicator is optional, and not needed: the body is read whole.
    if version == 4 && flags & 0x01 != 0 {
        read_syncsafe_leq32(reader, 28)?;
        if size < 4 {
            return Err(Error::IoError(IoErrorKind::UnexpectedEof));
        }
        size = size - 4;
    }
    let mut raw = reader.read_boxed_slice_bytes(size)?;
    let key = ascii_str(id.as_slice());
    let ghost raw0 = raw@;
    // An unsynchronised body is decoded in place before it is parsed.
    if version == 4 && flags & 0x02 != 0 && raw.len() > 0 {
        let n = decode_unsynchronisation(raw.as_mut_slice());
        let decoded = &raw.as_slice()[0..n];
        assert(decoded@ =~= unsync_from(raw0, 0));
        let mut body = BufStream::new(decoded);
        read_text_frame(&mut body, key, n)
    } else {
        proof {
            if version == 4 && flags & 0x02 != 0 {
                assert(unsync_from(raw0, 0) =~= raw0);
            }
        }
        let mut body = BufStream::new(raw.as_slice());
        read_text_frame(&mut body, key, raw.len())
    }
}

/// Reads an ID3v2.3 frame: its identifier, then, unless it is padding, its size, flags and
/// body. A frame without a parser is skipped; a compressed one is skipped and refused; a text
/// frame is parsed into tags keyed by its identifier.
pub fn read_id3v2p3_frame(reader: &mut BufStream) -> (r: Result<FrameResult, Error>)
    requires
        old(reader).data().len() + 2 <= usize::MAX,
    ensures
        final(reader).data() == old(reader).data(),
        match frame_v34(old(reader).data(), old(reader).position() as int, 3) {
            Err(e) => r matches Err(e2) && e2 == e,
            Ok((body, end)) => frame_result(r, body, end, final(reader).position() as int),
        },
{
    read_frame_v34(reader, 3)
}

/// Reads an ID3v2.4 frame: its identifier, then, unless it is padding, its syncsafe size, flags
/// and body. A frame without a parser is skipped; a compressed or encrypted one is skipped and
/// refused; a text frame, its unsynchronisation undone, is parsed into tags keyed by its
/// identifier.
pub fn read_id3v2p4_frame(reader: &mut BufStream) -> (r: Result<FrameResult, Error>)
    requires
        old(reader).data().len() + 2 <= usize::MAX,
    ensures
        final(reader).data() == old(reader).data(),
        match frame_v34(old(reader).data(), old(reader).position() as int, 4) {
            Err(e) => r matches Err(e2) && e2 == e,
            Ok((body, end)) => frame_result(r, body, end, final(reader).position() as int),
        },
{
    read_frame_v34(reader, 4)
}

} // verus!
