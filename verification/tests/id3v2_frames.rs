use sonata::errors::{Error, IoErrorKind};
use sonata::id3v2::frames::{
    decode_text, read_id3v2p2_frame, read_id3v2p3_frame, read_id3v2p4_frame, Encoding,
    FrameResult,
};
use sonata::io::BufStream;

fn tags(r: Result<FrameResult, Error>) -> Vec<(String, String)> {
    match r {
        Ok(FrameResult::MultipleTags(tags)) => {
            tags.into_iter().map(|t| (t.key, t.value)).collect()
        }
        _ => panic!("expected tags"),
    }
}

fn frame_v3(id: &[u8; 4], flags: u8, body: &[u8]) -> Vec<u8> {
    let mut v = id.to_vec();
    v.extend_from_slice(&(body.len() as u32).to_be_bytes());
    v.extend_from_slice(&[0, flags]);
    v.extend_from_slice(body);
    v
}

#[test]
fn text_frame_v3_gives_a_tag_per_field() {
    let data = frame_v3(b"TIT2", 0, &[0, b'H', b'i', 0, b'Y', b'o']);
    let mut reader = BufStream::new(&data);
    let t = tags(read_id3v2p3_frame(&mut reader));
    assert_eq!(t, vec![("TIT2".to_string(), "Hi".to_string()), ("TIT2".to_string(), "Yo".to_string())]);
    assert_eq!(reader.pos(), data.len());
}

#[test]
fn padding_and_unsupported_frames() {
    let data = [0u8; 4];
    assert!(matches!(read_id3v2p3_frame(&mut BufStream::new(&data)), Ok(FrameResult::Padding)));
    let data = frame_v3(b"APIC", 0, &[1, 2, 3]);
    let mut reader = BufStream::new(&data);
    assert!(matches!(read_id3v2p3_frame(&mut reader), Ok(FrameResult::UnsupportedFrame)));
    assert_eq!(reader.pos(), 13);
}

#[test]
fn compressed_and_encrypted_frames_are_refused() {
    let data = frame_v3(b"TIT2", 0x80, &[0, b'a']);
    assert_eq!(
        read_id3v2p3_frame(&mut BufStream::new(&data)).err(),
        Some(Error::Unsupported("Compression is not supported."))
    );
    let data = frame_v3(b"TIT2", 0x04, &[0, b'a']);
    assert_eq!(
        read_id3v2p4_frame(&mut BufStream::new(&data)).err(),
        Some(Error::Unsupported("Encryption is not supported."))
    );
}

#[test]
fn invalid_text_encoding_and_short_frames_fail() {
    let data = frame_v3(b"TALB", 0, &[7, b'a']);
    assert_eq!(
        read_id3v2p3_frame(&mut BufStream::new(&data)).err(),
        Some(Error::DecodeError("Invalid text encoding."))
    );
    let data = frame_v3(b"TALB", 0, &[0, b'a']);
    assert_eq!(
        read_id3v2p3_frame(&mut BufStream::new(&data[..data.len() - 1])).err(),
        Some(Error::IoError(IoErrorKind::UnexpectedEof))
    );
}

#[test]
fn text_frame_v2_uses_the_legacy_identifier() {
    let mut data = b"TT2".to_vec();
    data.extend_from_slice(&[0, 0, 4, 3, b'a', b'b', 0]);
    let t = tags(read_id3v2p2_frame(&mut BufStream::new(&data)));
    assert_eq!(t, vec![("TT2".to_string(), "ab".to_string())]);
    let mut data = b"PIC".to_vec();
    data.extend_from_slice(&[0, 0, 1, 9]);
    assert!(matches!(read_id3v2p2_frame(&mut BufStream::new(&data)), Ok(FrameResult::UnsupportedFrame)));
}

#[test]
fn text_frame_v4_undoes_unsynchronisation() {
    // A group identifier byte, then a body holding 0xff 0x00 0xe9 in ISO-8859-1.
    let mut data = b"TPE1".to_vec();
    data.extend_from_slice(&[0, 0, 0, 6, 0, 0x42, 0x77, 0, b'x', 0xff, 0x00, 0xe9]);
    let t = tags(read_id3v2p4_frame(&mut BufStream::new(&data)));
    assert_eq!(t, vec![("TPE1".to_string(), "x\u{ff}\u{e9}".to_string())]);
}

#[test]
fn decode_text_handles_each_encoding() {
    assert_eq!(decode_text(Encoding::Iso8859_1, &[b'A', 0x05, 0xe9, 0]), "A\u{e9}");
    assert_eq!(decode_text(Encoding::Utf8, &[0xc3, 0xa9, b'!', 0, 0]), "\u{e9}!");
    assert_eq!(decode_text(Encoding::Utf8, &[0xff, b'a']), "\u{fffd}a");
    assert_eq!(decode_text(Encoding::Utf16Be, &[0, b'H', 0, b'i', 0, 0]), "Hi");
    assert_eq!(decode_text(Encoding::Utf16Bom, &[0xff, 0xfe, b'H', 0, b'i', 0, 0, 0]), "Hi");
}
