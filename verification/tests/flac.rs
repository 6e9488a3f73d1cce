use sonata::flac::subframe::rice_signed_to_i32;

#[test]
fn verify_rice_signed_to_i32() {
    assert_eq!(rice_signed_to_i32(0),  0);
    assert_eq!(rice_signed_to_i32(1), -1);
    assert_eq!(rice_signed_to_i32(2),  1);
    assert_eq!(rice_signed_to_i32(3), -2);
    assert_eq!(rice_signed_to_i32(4),  2);
    assert_eq!(rice_signed_to_i32(5), -3);
    assert_eq!(rice_signed_to_i32(6),  3);
    assert_eq!(rice_signed_to_i32(7), -4);
    assert_eq!(rice_signed_to_i32(8),  4);
    assert_eq!(rice_signed_to_i32(9), -5);
    assert_eq!(rice_signed_to_i32(10), 5);

    assert_eq!(rice_signed_to_i32(u32::max_value()), -2_147_483_648);
}

use sonata::checksum::{Crc8Ccitt, Crc16};
use sonata::flac::decoder::PacketParser as HeaderScanner;
use sonata::flac::frame::next_frame;
use sonata::flac::parser::PacketParser;
use sonata::io::BufStream;

/// A FLAC frame of `len` bytes: a header for 192 samples of 16-bit stereo at 44.1kHz with frame
/// number `num`, a payload, and the CRC-16 footer.
fn make_frame(num: u8, len: usize) -> Vec<u8> {
    let mut f = vec![0xff, 0xf8, 0x19, 0x18, num];
    let mut crc8 = Crc8Ccitt::new(0);
    crc8.process_buf_bytes(&f);
    f.push(crc8.crc());
    while f.len() < len - 2 {
        f.push((f.len() % 200) as u8);
    }
    let mut crc16 = Crc16::new(0);
    crc16.process_buf_bytes(&f);
    let c = crc16.crc();
    f.push((c >> 8) as u8);
    f.push((c & 0xff) as u8);
    f
}

#[test]
fn parse_packet_reads_a_frame_header() {
    let frame = make_frame(0, 100);
    let mut reader = BufStream::new(&frame);
    let packet = HeaderScanner::parse_packet(&mut reader).unwrap();
    assert_eq!(packet.packet_ts, 0);
    assert_eq!(packet.n_frames, 192);
    assert_eq!(packet.parsed_len, 6);

    // A frame number counts blocks of 192 samples; garbage before the frame is skipped.
    let mut data = vec![0x12, 0x34, 0xff, 0x00];
    data.extend_from_slice(&make_frame(3, 50));
    let mut reader = BufStream::new(&data);
    let packet = HeaderScanner::parse_packet(&mut reader).unwrap();
    assert_eq!(packet.packet_ts, 3 * 192);
    assert_eq!(packet.parsed_len, 6);

    // Without a frame, the stream ends first.
    let mut reader = BufStream::new(&[0u8, 1, 2, 3]);
    assert!(HeaderScanner::parse_packet(&mut reader).is_err());
    let mut reader = BufStream::new(&[0u8, 1, 2, 3]);
    assert!(next_frame(&mut reader).is_err());
}

#[test]
fn parser_recovers_frames_by_their_crc() {
    let a = make_frame(0, 100);
    let b = make_frame(1, 120);
    let c = make_frame(2, 80);
    let mut data = Vec::new();
    data.extend_from_slice(&a);
    data.extend_from_slice(&b);
    data.extend_from_slice(&c);
    data.resize(8192, 0);
    let mut reader = BufStream::new(&data);
    let mut parser = PacketParser::default();
    assert_eq!(parser.parse(&mut reader).unwrap(), a);
    assert_eq!(parser.parse(&mut reader).unwrap(), b);
    // The last frame has no following fragment to bound it, and the stream has ended.
    assert!(parser.parse(&mut reader).is_err());
}

#[test]
fn parser_needs_a_whole_block() {
    let a = make_frame(0, 100);
    let b = make_frame(1, 100);
    let mut data = a.clone();
    data.extend_from_slice(&b);
    let mut reader = BufStream::new(&data);
    let mut parser = PacketParser::default();
    assert!(parser.parse(&mut reader).is_err());
}

#[test]
fn parser_skips_a_corrupt_frame() {
    let a = make_frame(0, 100);
    let mut bad = make_frame(1, 100);
    bad[50] ^= 0x55;
    let c = make_frame(2, 100);
    let d = make_frame(3, 100);
    let mut data = Vec::new();
    data.extend_from_slice(&a);
    data.extend_from_slice(&bad);
    data.extend_from_slice(&c);
    data.extend_from_slice(&d);
    data.resize(16384, 0);
    let mut reader = BufStream::new(&data);
    let mut parser = PacketParser::default();
    assert_eq!(parser.parse(&mut reader).unwrap(), a);
    // The corrupt frame never checks out: the merge from it is given up at the second-best
    // fragment, and after another block is read the next frame is found.
    assert_eq!(parser.parse(&mut reader).unwrap(), c);
}

use sonata::flac::demuxer::{FlacReader, ProbeDepth, ProbeResult};

/// A FLAC stream: the marker, a last STREAMINFO block for 192-sample blocks of 16-bit stereo at
/// 44.1kHz and 576 samples in all, then three frames.
fn make_stream(prefix: &[u8]) -> Vec<u8> {
    let mut s = prefix.to_vec();
    s.extend_from_slice(b"fLaC");
    s.extend_from_slice(&[0x80, 0x00, 0x00, 0x22]);
    s.extend_from_slice(&[0x00, 0xc0, 0x00, 0xc0, 0, 0, 0, 0, 0, 0]);
    s.extend_from_slice(&[0x0a, 0xc4, 0x42, 0xf0, 0x00, 0x00, 0x02, 0x40]);
    s.extend_from_slice(&[0u8; 16]);
    for n in 0..3u8 {
        s.extend_from_slice(&make_frame(n, 60));
    }
    s
}

#[test]
fn flac_reader_probes_the_stream_info() {
    let data = make_stream(&[]);
    let mut reader = FlacReader::open(BufStream::new(&data));
    assert_eq!(reader.probe(ProbeDepth::Default).unwrap(), ProbeResult::Supported);
    let streams = reader.streams();
    assert_eq!(streams.len(), 1);
    let params = &streams[0].codec_params;
    assert_eq!(params.sample_rate, Some(44100));
    assert_eq!(params.bits_per_sample, Some(16));
    assert_eq!(params.n_frames, Some(576));
    assert_eq!(params.max_frames_per_packet, Some(192));
}

#[test]
fn flac_reader_deep_probe_searches_for_the_marker() {
    let data = make_stream(&[1, 2, 3, 4, 5]);
    let mut reader = FlacReader::open(BufStream::new(&data));
    assert_eq!(reader.probe(ProbeDepth::Default).unwrap(), ProbeResult::Unsupported);
    let mut reader = FlacReader::open(BufStream::new(&data));
    assert_eq!(reader.probe(ProbeDepth::Deep).unwrap(), ProbeResult::Supported);
    // Without a marker, the stream ends first.
    let mut reader = FlacReader::open(BufStream::new(&[1u8, 2, 3, 4, 5, 6]));
    assert!(reader.probe(ProbeDepth::Deep).is_err());
}

#[test]
fn flac_reader_seeks_to_the_frame_holding_a_sample() {
    let data = make_stream(&[]);
    let mut reader = FlacReader::open(BufStream::new(&data));
    assert_eq!(reader.probe(ProbeDepth::Default).unwrap(), ProbeResult::Supported);
    assert_eq!(reader.seek(400).unwrap(), 384);
    assert_eq!(reader.seek(0).unwrap(), 0);
    assert_eq!(reader.seek(191).unwrap(), 0);
    assert_eq!(reader.seek(192).unwrap(), 192);
    // Past the stated number of samples.
    assert!(reader.seek(700).is_err());
    // Without a stream there is nothing to seek in.
    let mut empty = FlacReader::open(BufStream::new(&data));
    assert!(empty.seek(0).is_err());
}

use sonata::flac::cuesheet::read_cuesheet_block;

/// A cuesheet block for a CD-DA disc with one audio track of two index points and the lead-out.
fn cuesheet(catalog_byte: u8, n_tracks: u8) -> Vec<u8> {
    let mut d = vec![catalog_byte; 13];
    d.resize(128, 0);
    d.extend_from_slice(&88200u64.to_be_bytes());
    d.push(0x80);
    d.extend_from_slice(&[0u8; 258]);
    d.push(n_tracks);
    // Track 1 at sample 0: number, ISRC, flags, reserved, two index points.
    d.extend_from_slice(&0u64.to_be_bytes());
    d.push(1);
    d.extend_from_slice(b"USABC1234567");
    d.extend_from_slice(&[0u8; 14]);
    d.push(2);
    d.extend_from_slice(&0u64.to_be_bytes());
    d.extend_from_slice(&[0, 0, 0, 0]);
    d.extend_from_slice(&588u64.to_be_bytes());
    d.extend_from_slice(&[1, 0, 0, 0]);
    // The lead-out track.
    d.extend_from_slice(&(588u64 * 100).to_be_bytes());
    d.push(170);
    d.extend_from_slice(&[0u8; 12]);
    d.extend_from_slice(&[0u8; 14]);
    d.push(0);
    d
}

#[test]
fn cuesheet_tracks_become_cues() {
    let data = cuesheet(b'1', 2);
    let mut reader = BufStream::new(&data);
    let mut cues = Vec::new();
    read_cuesheet_block(&mut reader, &mut cues).unwrap();
    assert_eq!(reader.pos(), data.len());
    assert_eq!(cues.len(), 2);
    assert_eq!(cues[0].index, 1);
    assert_eq!(cues[0].start_ts, 0);
    assert_eq!(cues[0].tags[0].value, "USABC1234567");
    assert_eq!(cues[0].points.len(), 2);
    assert_eq!(cues[0].points[1].start_offset_ts, 588);
    assert_eq!(cues[1].index, 170);
    assert_eq!(cues[1].start_ts, 58800);
    assert_eq!(cues[1].points.len(), 0);
}

#[test]
fn cuesheet_errors() {
    let mut cues = Vec::new();
    let data = cuesheet(0x07, 2);
    assert_eq!(
        read_cuesheet_block(&mut BufStream::new(&data), &mut cues).err(),
        Some(sonata::errors::Error::DecodeError("Cuesheet catalog number contains invalid characters."))
    );
    let data = cuesheet(b'1', 0);
    assert_eq!(
        read_cuesheet_block(&mut BufStream::new(&data), &mut cues).err(),
        Some(sonata::errors::Error::DecodeError("Cuesheet must have at-least one track."))
    );
    let mut data = cuesheet(b'1', 2);
    // A track index offset that is not a multiple of 588 samples on a CD-DA disc.
    data[396 + 36 + 12 + 7] = 1;
    assert_eq!(
        read_cuesheet_block(&mut BufStream::new(&data), &mut cues).err(),
        Some(sonata::errors::Error::DecodeError(
            "Cuesheet track index point sample offset is not a multiple of 588 for CD-DA."
        ))
    );
    // No cue is added for the track that failed.
    assert_eq!(cues.len(), 0);
}

fn picture_block(media_type: &[u8], desc: &[u8], dims: [u32; 4], data: &[u8]) -> Vec<u8> {
    let mut b = Vec::new();
    b.extend_from_slice(&3u32.to_be_bytes());
    b.extend_from_slice(&(media_type.len() as u32).to_be_bytes());
    b.extend_from_slice(media_type);
    b.extend_from_slice(&(desc.len() as u32).to_be_bytes());
    b.extend_from_slice(desc);
    for v in dims.iter() {
        b.extend_from_slice(&v.to_be_bytes());
    }
    b.extend_from_slice(&(data.len() as u32).to_be_bytes());
    b.extend_from_slice(data);
    b
}

#[test]
fn picture_block_fields() {
    let block = picture_block(b"image/png", b"cover", [640, 480, 24, 0], &[1, 2, 3]);
    let mut reader = sonata::io::BufStream::new(&block);
    let pic = sonata::flac::metadata::read_picture_block(&mut reader).unwrap();
    assert_eq!(pic.usage, 3);
    assert_eq!(pic.media_type, "image/png");
    assert_eq!(pic.description, b"cover".to_vec());
    assert_eq!(pic.dimensions, Some((640, 480)));
    assert_eq!(pic.bits_per_pixel, Some(24));
    assert_eq!(pic.indexed_colours, None);
    assert_eq!(pic.data, vec![1, 2, 3]);
    assert_eq!(reader.pos(), block.len());
}

#[test]
fn picture_block_zero_sizes_are_unstated() {
    let block = picture_block(b"image/gif", b"", [0, 480, 0, 16], &[]);
    let mut reader = sonata::io::BufStream::new(&block);
    let pic = sonata::flac::metadata::read_picture_block(&mut reader).unwrap();
    assert_eq!(pic.dimensions, None);
    assert_eq!(pic.bits_per_pixel, None);
    assert_eq!(pic.indexed_colours, Some(16));
}

#[test]
fn picture_block_media_type_must_be_printable() {
    let block = picture_block(b"image/\x01png", b"", [1, 1, 1, 0], &[]);
    let mut reader = sonata::io::BufStream::new(&block);
    assert_eq!(
        sonata::flac::metadata::read_picture_block(&mut reader).err(),
        Some(sonata::errors::Error::DecodeError("Picture mime-type contains invalid characters."))
    );
}

#[test]
fn picture_block_truncated_is_eof() {
    let block = picture_block(b"image/png", b"cover", [640, 480, 24, 0], &[1, 2, 3]);
    let mut reader = sonata::io::BufStream::new(&block[..block.len() - 1]);
    assert!(matches!(
        sonata::flac::metadata::read_picture_block(&mut reader),
        Err(sonata::errors::Error::IoError(_))
    ));
}
