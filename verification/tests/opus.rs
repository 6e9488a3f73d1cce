use sonata::errors::Error;
use sonata::codecs::CodecType;
use sonata::opus::{detect_opus, read_packet, IdentHeader, Toc};

#[test]
fn toc_splits_the_byte() {
    let toc = Toc::parse(0b0101_1_110);
    assert_eq!(toc.config, 11);
    assert!(toc.is_stereo);
    assert_eq!(toc.code, 2);
    assert_eq!(toc.frame_size_us(), 60_000);
    assert_eq!(Toc::parse(0).frame_size_us(), 10_000);
    assert_eq!(Toc::parse(13 << 3).frame_size_us(), 20_000);
    assert_eq!(Toc::parse(16 << 3).frame_size_us(), 2_500);
    assert_eq!(Toc::parse(31 << 3).frame_size_us(), 20_000);
}

#[test]
fn packet_frame_counts_are_checked() {
    // One frame.
    assert!(read_packet(&[0x00, 1, 2, 3]).is_ok());
    // Two frames of equal size need an even body.
    assert!(read_packet(&[0x01, 1, 2]).is_ok());
    assert_eq!(read_packet(&[0x01, 1, 2, 3]), Err(Error::DecodeError("invalid code1 packet size")));
    // Two frames, the first of a stated length.
    assert!(read_packet(&[0x02, 2, 9, 9, 9]).is_ok());
    assert_eq!(read_packet(&[0x02, 5, 9]), Err(Error::DecodeError("invalid code2 frame size")));
    // An arbitrary number of frames.
    assert_eq!(read_packet(&[0x03, 0x00]), Err(Error::DecodeError("code3 frame count is 0")));
    assert!(read_packet(&[0x03, 0x02, 7, 7]).is_ok());
    // Three 60ms frames exceed 120ms.
    assert_eq!(
        read_packet(&[(3 << 3) | 0x03, 0x03, 7, 7, 7]),
        Err(Error::DecodeError("code3 total frame length exceeds 120ms"))
    );
}

fn opus_head(channels: u8, family: u8) -> Vec<u8> {
    let mut d = b"OpusHead".to_vec();
    d.push(1);
    d.push(channels);
    d.extend_from_slice(&[0x38, 0x01]);
    d.extend_from_slice(&[0x80, 0xbb, 0x00, 0x00]);
    d.extend_from_slice(&[0x00, 0x00]);
    d.push(family);
    d
}

#[test]
fn ident_header_fields() {
    let h = IdentHeader::parse(&opus_head(2, 0)).unwrap();
    assert_eq!(h.n_channels, 2);
    assert_eq!(h.pre_skip, 312);
    assert_eq!(h.in_sample_rate, 48000);
    assert_eq!(h.gain, 0);
    assert_eq!(h.mapping_family, 0);
    assert_eq!(h.stream_count, 1);
    assert_eq!(h.coupled_count, 1);

    let mut d = opus_head(3, 1);
    d.extend_from_slice(&[2, 1, 0, 2, 1]);
    let h = IdentHeader::parse(&d).unwrap();
    assert_eq!(h.stream_count, 2);
    assert_eq!(h.coupled_count, 1);
    assert_eq!(&h.mapping[..4], &[0, 2, 1, 0]);
}

#[test]
fn ident_header_errors() {
    let mut d = opus_head(2, 0);
    d[0] = b'o';
    assert!(matches!(IdentHeader::parse(&d), Err(Error::DecodeError("incorrect opus signature"))));
    assert!(matches!(IdentHeader::parse(&opus_head(0, 0)), Err(Error::DecodeError("channel count is 0"))));
    assert!(matches!(IdentHeader::parse(&opus_head(3, 0)), Err(Error::DecodeError("invalid number of channels"))));
    assert!(matches!(IdentHeader::parse(&opus_head(2, 2)), Err(Error::DecodeError("reserved mapping family"))));
    assert!(matches!(IdentHeader::parse(&opus_head(2, 1)), Err(Error::IoError(_))));
}

#[test]
fn opus_stream_detection() {
    let p = detect_opus(&opus_head(2, 0)).unwrap().unwrap();
    assert_eq!(p.codec, CodecType::Opus);
    assert_eq!(p.sample_rate, Some(48_000));
    assert_eq!(p.leading_padding, Some(312));
    assert_eq!(p.channels.unwrap().bits(), 0x3);
    let mut six = opus_head(6, 1);
    six.extend_from_slice(&[4, 2, 0, 4, 1, 2, 3, 5]);
    assert_eq!(detect_opus(&six).unwrap().unwrap().channels.unwrap().bits(), 0x6f);
    // Not an identification packet, or one this reader does not support.
    assert!(detect_opus(&opus_head(2, 0)[..18]).unwrap().is_none());
    assert!(detect_opus(b"OpusTags01234567890").unwrap().is_none());
    assert!(detect_opus(&opus_head(0, 0)).unwrap().is_none());
    assert!(detect_opus(&opus_head(3, 0)).unwrap().is_none());
    assert!(detect_opus(&opus_head(2, 2)).unwrap().is_none());
    let mut late = opus_head(2, 0);
    late[8] = 0x10;
    assert!(detect_opus(&late).unwrap().is_none());
}
