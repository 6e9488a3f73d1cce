use sonata::errors::Error;
use sonata::io::BufStream;
use sonata::mp3::header::{decode_header_word, read_frame_header, Channels, Mode, MpegLayer, MpegVersion};
use sonata::mp3::resevoir::BitResevoir;
use sonata::mp3::requantize::{read_huffman_samples, GranuleChannel, MpegHuffmanTable};
use sonata::io::BitStreamLtr;
use sonata::io::huffman::{HuffmanTable, H8};

#[test]
fn header_word_fields() {
    let h = decode_header_word(0xfffb_9064).unwrap();
    assert_eq!(h.version, MpegVersion::Mpeg1);
    assert_eq!(h.layer, MpegLayer::Layer3);
    assert_eq!(h.bitrate, 128_000);
    assert_eq!(h.sample_rate, 44_100);
    assert_eq!(h.sample_rate_idx, 0);
    assert_eq!(h.channels, Channels::JointStereo(Mode::Layer3 { mid_side: true, intensity: false }));
    assert!(h.is_original);
    assert!(!h.is_copyrighted);
    assert!(!h.has_padding);
    assert_eq!(h.crc, None);
    // 144 * 128000 / 44100 bytes, less the 4 byte header.
    assert_eq!(h.frame_size, 413);
    assert!(h.is_mpeg1());
    assert_eq!(h.n_granules(), 2);
    assert_eq!(h.n_channels(), 2);

    let h = decode_header_word(0xfff3_54c0).unwrap();
    assert_eq!(h.version, MpegVersion::Mpeg2);
    assert_eq!(h.sample_rate, 24_000);
    assert_eq!(h.channels, Channels::Mono);
    assert_eq!(h.n_granules(), 1);
    assert_eq!(h.n_channels(), 1);
}

#[test]
fn header_word_errors() {
    assert_eq!(decode_header_word(0xffeb_9064), Err(Error::DecodeError("Invalid MPEG version.")));
    assert_eq!(decode_header_word(0xfff9_9064), Err(Error::DecodeError("Invalid MPEG layer.")));
    assert_eq!(decode_header_word(0xfffb_0064), Err(Error::Unsupported("Free bit-rate is not supported.")));
    assert_eq!(decode_header_word(0xfffb_f064), Err(Error::DecodeError("Invalid bit-rate.")));
    assert_eq!(decode_header_word(0xfffb_9c64), Err(Error::DecodeError("Invalid sample rate.")));
}

#[test]
fn frame_header_follows_the_sync_word() {
    let mut reader = BufStream::new(&[0x00, 0x12, 0xff, 0xfb, 0x90, 0x64, 0xaa]);
    let h = read_frame_header(&mut reader).unwrap();
    assert_eq!(h.frame_size, 413);
    assert_eq!(reader.pos(), 6);

    // With a CRC, the two CRC bytes follow the header and belong to the frame.
    let mut reader = BufStream::new(&[0xff, 0xfa, 0x90, 0x64, 0x12, 0x34]);
    let h = read_frame_header(&mut reader).unwrap();
    assert_eq!(h.crc, Some(0x1234));
    assert_eq!(h.frame_size, 411);

    let mut reader = BufStream::new(&[0x00, 0x01, 0x02]);
    assert!(read_frame_header(&mut reader).is_err());
}

#[test]
fn resevoir_keeps_the_tail_of_the_main_data() {
    let data = [1u8, 2, 3, 4, 5, 6];
    let mut reader = BufStream::new(&data);
    let mut res = BitResevoir::new();
    assert!(res.bytes_ref().is_empty());
    res.fill(&mut reader, 0, 3).unwrap();
    assert_eq!(res.bytes_ref(), &[1, 2, 3][..]);
    res.fill(&mut reader, 2, 1).unwrap();
    assert_eq!(res.bytes_ref(), &[2, 3, 4][..]);
    assert_eq!(
        res.fill(&mut reader, 2000, 100),
        Err(Error::DecodeError("Invalid main_data length, will exceed resevoir buffer."))
    );
    assert!(res.fill(&mut reader, 0, 10).is_err());
    assert_eq!(res.bytes_ref(), &[2, 3, 4][..]);
}

// An empty table: it codes only zeros.
const EMPTY_TABLE: HuffmanTable<H8> = HuffmanTable { data: &[], n_init_bits: 0, n_table_bits: 0 };

// The pairs table of the standard's table 1: "1" is (0, 0), "01" is (1, 0), "001" is (0, 1) and
// "000" is (1, 1).
const PAIRS_TABLE: HuffmanTable<H8> = HuffmanTable {
    data: &[
        (0x8003, 0x11),
        (0x8003, 0x01),
        (0x8002, 0x10),
        (0x8002, 0x10),
        (0x8001, 0x00),
        (0x8001, 0x00),
        (0x8001, 0x00),
        (0x8001, 0x00),
    ],
    n_init_bits: 3,
    n_table_bits: 3,
};

// A one bit table: "0" is (0, 0) and "1" is (15, 0), a saturated first sample.
const ESCAPE_TABLE: HuffmanTable<H8> = HuffmanTable {
    data: &[(0x8001, 0x00), (0x8001, 0xf0)],
    n_init_bits: 1,
    n_table_bits: 1,
};

// A small quadruples table: "1" is 0b0000, "01" is 0b1000 and "00" is 0b0001.
const QUADS_TABLE: HuffmanTable<H8> = HuffmanTable {
    data: &[(0x8002, 0x1), (0x8002, 0x8), (0x8001, 0x0), (0x8001, 0x0)],
    n_init_bits: 2,
    n_table_bits: 2,
};

fn pair_tables() -> Vec<MpegHuffmanTable> {
    vec![
        MpegHuffmanTable { huff_table: &EMPTY_TABLE, linbits: 0 },
        MpegHuffmanTable { huff_table: &PAIRS_TABLE, linbits: 0 },
        MpegHuffmanTable { huff_table: &ESCAPE_TABLE, linbits: 2 },
    ]
}

fn channel(big_values: u16, table: u8) -> GranuleChannel {
    GranuleChannel {
        big_values,
        region1_start: 576,
        region2_start: 576,
        table_select: [table, table, table],
        count1table_select: false,
    }
}

#[test]
fn huffman_samples_big_values_and_count1() {
    // Pairs "01" "1" (-1, 0) and "001" "0" (0, +1); then quadruples "01" "0" (+1, 0, 0, 0) and
    // "1" (0, 0, 0, 0): 11 bits.
    let data = [0b0110_0100, 0b1010_0000];
    let mut bs = BitStreamLtr::new(BufStream::new(&data));
    let mut out = [7i32; 576];
    let tables = pair_tables();
    let r = read_huffman_samples(&mut bs, &channel(2, 1), 11, &tables, &QUADS_TABLE, &QUADS_TABLE, &mut out);
    assert_eq!(r, Ok(12));
    assert_eq!(&out[..5], &[-1, 0, 0, 1, 1]);
    assert!(out[5..].iter().all(|&x| x == 0));
}

#[test]
fn huffman_samples_no_data_is_all_zero() {
    let data = [0xffu8];
    let mut bs = BitStreamLtr::new(BufStream::new(&data));
    let mut out = [7i32; 576];
    let tables = pair_tables();
    let r = read_huffman_samples(&mut bs, &channel(2, 1), 0, &tables, &QUADS_TABLE, &QUADS_TABLE, &mut out);
    assert_eq!(r, Ok(0));
    assert!(out.iter().all(|&x| x == 0));
    // Nothing was read.
    assert_eq!(bs.read_bits_leq32(8), Ok(0xff));
}

#[test]
fn huffman_samples_count1_overrun_is_dropped() {
    // With 9 bits of data, the first quadruple ("01" "0") ends at bit 10: it is dropped.
    let data = [0b0110_0100, 0b1010_0000];
    let mut bs = BitStreamLtr::new(BufStream::new(&data));
    let mut out = [7i32; 576];
    let tables = pair_tables();
    let r = read_huffman_samples(&mut bs, &channel(2, 1), 9, &tables, &QUADS_TABLE, &QUADS_TABLE, &mut out);
    assert_eq!(r, Ok(4));
    assert_eq!(&out[..4], &[-1, 0, 0, 1]);
    assert!(out[4..].iter().all(|&x| x == 0));
    // The reader stands after the dropped quadruple.
    assert_eq!(bs.read_bits_leq32(6), Ok(0b10_0000));
}

#[test]
fn huffman_samples_stuffing_bits_are_skipped() {
    // As above, but 16 bits of data: the quadruples "1" read from the stuffing fill up to bit 16.
    let data = [0b0110_0100, 0b1011_1111, 0b1010_1010];
    let mut bs = BitStreamLtr::new(BufStream::new(&data));
    let mut out = [7i32; 576];
    let tables = pair_tables();
    let r = read_huffman_samples(&mut bs, &channel(2, 1), 16, &tables, &QUADS_TABLE, &QUADS_TABLE, &mut out);
    assert_eq!(r, Ok(4 + 4 * 7));
    assert_eq!(&out[..5], &[-1, 0, 0, 1, 1]);
    assert!(out[5..].iter().all(|&x| x == 0));
    assert_eq!(bs.read_bits_leq32(8), Ok(0b1010_1010));
}

#[test]
fn huffman_samples_linbits_extend_a_saturated_value() {
    // "1" is (15, 0); 2 linbits "11" make it 18, and the sign bit "1" makes it -18.
    let data = [0b1111_0000];
    let mut bs = BitStreamLtr::new(BufStream::new(&data));
    let mut out = [7i32; 576];
    let tables = pair_tables();
    let r = read_huffman_samples(&mut bs, &channel(1, 2), 4, &tables, &QUADS_TABLE, &QUADS_TABLE, &mut out);
    assert_eq!(r, Ok(2));
    assert_eq!(out[0], -18);
    assert!(out[1..].iter().all(|&x| x == 0));
}

#[test]
fn huffman_samples_empty_table_region_is_zero() {
    let data = [0u8; 2];
    let mut bs = BitStreamLtr::new(BufStream::new(&data));
    let mut out = [7i32; 576];
    let tables = pair_tables();
    // The big_values samples all use the empty table; then "00" decodes to 0b0001 and its sign
    // bit "0" gives +1, for exactly 3 bits.
    let r = read_huffman_samples(&mut bs, &channel(3, 0), 3, &tables, &QUADS_TABLE, &QUADS_TABLE, &mut out);
    assert_eq!(r, Ok(10));
    assert_eq!(&out[..10], &[0, 0, 0, 0, 0, 0, 0, 0, 0, 1]);
    assert!(out[10..].iter().all(|&x| x == 0));
}

#[test]
fn huffman_samples_big_values_overrun_is_an_error() {
    // The first pair uses all 3 bits, so the second pair has none left.
    let data = [0b0110_0100, 0b1010_0000];
    let mut bs = BitStreamLtr::new(BufStream::new(&data));
    let mut out = [0i32; 576];
    let tables = pair_tables();
    let r = read_huffman_samples(&mut bs, &channel(2, 1), 3, &tables, &QUADS_TABLE, &QUADS_TABLE, &mut out);
    assert_eq!(r, Err(Error::DecodeError("mp3: Huffman data overrun")));
}

#[test]
fn huffman_samples_end_of_data_is_an_error() {
    let data = [0b0110_0100];
    let mut bs = BitStreamLtr::new(BufStream::new(&data));
    let mut out = [0i32; 576];
    let tables = pair_tables();
    let r = read_huffman_samples(&mut bs, &channel(2, 1), 40, &tables, &QUADS_TABLE, &QUADS_TABLE, &mut out);
    assert!(matches!(r, Err(Error::IoError(_))));
}
