use sonata::codecs::{CodecType, CODEC_TYPE_FLAC};
use sonata::errors::Error;
use sonata::ogg::mappings::{detect, detect_flac, MapResult, Mapper};

fn ogg_flac_ident(block_type: u8) -> Vec<u8> {
    let mut p = vec![0x7f, b'F', b'L', b'A', b'C', 1, 0, 0, 1, b'f', b'L', b'a', b'C'];
    p.extend_from_slice(&[0x80 | block_type, 0, 0, 34]);
    // Block lengths 4096..4096, frame lengths unknown.
    p.extend_from_slice(&[0x10, 0x00, 0x10, 0x00, 0, 0, 0, 0, 0, 0]);
    // 44.1kHz, two channels, 16 bits per sample, 1000 samples.
    let packed: u64 = (44100u64 << 44) | (1u64 << 41) | (15u64 << 36) | 1000;
    p.extend_from_slice(&packed.to_be_bytes());
    p.extend_from_slice(&[0u8; 16]);
    p
}

#[test]
fn ogg_flac_identification_packet_gives_codec_parameters() {
    let packet = ogg_flac_ident(0);
    assert_eq!(packet.len(), 51);
    let p = detect_flac(&packet).unwrap().unwrap();
    assert_eq!(p.codec, CODEC_TYPE_FLAC);
    assert_eq!(p.sample_rate, Some(44100));
    assert_eq!(p.bits_per_sample, Some(16));
    assert_eq!(p.max_frames_per_packet, Some(4096));
    assert_eq!(p.n_frames, Some(1000));
    assert_eq!(p.channels.unwrap().count(), 2);
    assert!(p.packet_data_integrity);
    // Another block type, or another length, is not Ogg FLAC.
    assert!(detect_flac(&ogg_flac_ident(4)).unwrap().is_none());
    assert!(detect_flac(&packet[..50]).unwrap().is_none());
}

#[test]
fn ogg_flac_mapper_sorts_packets() {
    let mut mapper = detect(&ogg_flac_ident(0)).unwrap().unwrap();
    assert!(matches!(mapper, Mapper::Flac(_)));
    assert_eq!(mapper.codec().codec, CODEC_TYPE_FLAC);
    assert_eq!(mapper.map_packet(&[0xff, 1, 2]), Ok(MapResult::Bitstream));
    assert_eq!(mapper.map_packet(&[0x80, 0, 0, 0]), Err(Error::DecodeError("invalid packet type")));
    assert_eq!(mapper.map_packet(&[0x04, 0, 0, 0]), Ok(MapResult::Metadata));
    assert_eq!(mapper.map_packet(&[0x01, 0, 0, 0]), Ok(MapResult::Unknown));
}

#[test]
fn ogg_opus_mapper_waits_for_the_comment_header() {
    let mut head = b"OpusHead".to_vec();
    head.extend_from_slice(&[1, 2, 0x38, 0x01, 0x80, 0xbb, 0, 0, 0, 0, 0]);
    let mut mapper = detect(&head).unwrap().unwrap();
    assert!(matches!(mapper, Mapper::Opus(_)));
    assert_eq!(mapper.codec().codec, CodecType::Opus);
    assert_eq!(mapper.map_packet(&[1, 2, 3]), Ok(MapResult::Unknown));
    assert_eq!(mapper.map_packet(b"OpusTags\0\0\0\0"), Ok(MapResult::Metadata));
    assert_eq!(mapper.map_packet(&[1, 2, 3]), Ok(MapResult::Bitstream));
    assert!(detect(&[1, 2, 3]).unwrap().is_none());
}
