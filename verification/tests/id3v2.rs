use sonata::errors::Error;
use sonata::id3v2::{decode_unsynchronisation, read_id3v2, read_id3v2_header, read_id3v2p4_extended_header, read_syncsafe_leq32};
use sonata::io::BufStream;

#[test]
fn syncsafe_integers_skip_the_top_bit() {
    let mut reader = BufStream::new(&[0x7f, 0x7f, 0x01, 0x00, 0x00, 0x00, 0x02, 0x01]);
    assert_eq!(read_syncsafe_leq32(&mut reader, 14).unwrap(), 0x3fff);
    assert_eq!(read_syncsafe_leq32(&mut reader, 14).unwrap(), 128);
    assert_eq!(read_syncsafe_leq32(&mut reader, 28).unwrap(), 0x101);
    assert!(read_syncsafe_leq32(&mut reader, 7).is_err());
}

#[test]
fn unsynchronisation_drops_stuffed_zeros() {
    let mut buf = [0xff, 0x00, 0x12, 0xff, 0x00];
    let n = decode_unsynchronisation(&mut buf);
    assert_eq!(n, 3);
    assert_eq!(&buf[..n], &[0xff, 0x12, 0xff]);
    let mut buf = [0x01, 0xff, 0xe0];
    let n = decode_unsynchronisation(&mut buf);
    assert_eq!(&buf[..n], &[0x01, 0xff, 0xe0]);
}

fn tag(major: u8, flags: u8, body: &[u8]) -> Vec<u8> {
    let size = body.len() as u32;
    let mut t = vec![b'I', b'D', b'3', major, 0, flags];
    t.extend_from_slice(&[
        ((size >> 21) & 0x7f) as u8,
        ((size >> 14) & 0x7f) as u8,
        ((size >> 7) & 0x7f) as u8,
        (size & 0x7f) as u8,
    ]);
    t.extend_from_slice(body);
    t
}

#[test]
fn tag_header_fields_and_errors() {
    let t = tag(3, 0x80, &[0u8; 200]);
    let h = read_id3v2_header(&mut BufStream::new(&t)).unwrap();
    assert_eq!(h.major_version, 3);
    assert_eq!(h.size, 200);
    assert!(h.unsynchronisation);
    assert!(!h.has_extended_header);

    assert_eq!(
        read_id3v2_header(&mut BufStream::new(b"TAG0000000")),
        Err(Error::Unsupported("Not an ID3 tag."))
    );
    assert_eq!(
        read_id3v2_header(&mut BufStream::new(&tag(5, 0, &[]))),
        Err(Error::Unsupported("Unsupported ID3v2."))
    );
    assert_eq!(
        read_id3v2_header(&mut BufStream::new(&tag(2, 0x40, &[]))),
        Err(Error::Unsupported("ID3v2.2 compression is not supported."))
    );
    assert_eq!(
        read_id3v2_header(&mut BufStream::new(&tag(0xff, 0, &[]))),
        Err(Error::DecodeError("Invalid version number(s)."))
    );
}

#[test]
fn tag_with_padding_is_read_whole() {
    let mut data = tag(3, 0, &[0u8; 10]);
    data.extend_from_slice(&[1, 2, 3]);
    let mut reader = BufStream::new(&data);
    read_id3v2(&mut reader).unwrap();
    assert_eq!(reader.pos(), 20);
}

#[test]
fn extended_header_of_a_v3_tag_is_unsupported() {
    let data = tag(3, 0x40, &[0u8; 16]);
    assert_eq!(
        read_id3v2(&mut BufStream::new(&data)),
        Err(Error::Unsupported("ID3v2.3 extended headers not supported."))
    );
}

#[test]
fn extended_header_v4_crc_is_unsupported() {
    // Size, a flags length of 1, the CRC flag, then a CRC field of the valid length 5.
    let data = [0, 0, 0, 12, 1, 0x20, 5, 0, 0, 0, 0, 0];
    let mut reader = BufStream::new(&data);
    assert_eq!(
        read_id3v2p4_extended_header(&mut reader, data.len()),
        Err(Error::Unsupported("ID3v2.4 extended header CRC-32 cannot be read."))
    );
}

#[test]
fn extended_header_v4_text_encoding_restriction_is_unsupported() {
    // Size, a flags length of 1, the restrictions flag, then restrictions with the text encoding
    // bit set.
    let data = [0, 0, 0, 8, 1, 0x10, 1, 0x40];
    let mut reader = BufStream::new(&data);
    assert_eq!(
        read_id3v2p4_extended_header(&mut reader, data.len()),
        Err(Error::Unsupported("ID3v2.4 text encoding restrictions cannot be read."))
    );
}

#[test]
fn extended_header_v4_update_flag_is_read() {
    let data = [0, 0, 0, 7, 1, 0x40, 1];
    let mut reader = BufStream::new(&data);
    let h = read_id3v2p4_extended_header(&mut reader, data.len()).unwrap();
    assert!(h.is_update);
    assert_eq!(h.size, 7);
    assert_eq!(reader.pos(), 7);
}
