use sonata::io::{BufStream, BitReaderLtr, utf8_decode_be_u64};
use sonata::io::huffman::{HuffmanTable, H8};
use sonata::util::bits::{mask_at, mask_upper, mask_upper_eq, mask_lower, mask_lower_eq, mask_range};

#[test]
fn io_verify_utf8_decode_be_u64() {
    let data: Vec<u8> = vec![
        0x24, 0xc2, 0xa2, 0xe0, 0xa4, 0xb9, 0xe2, 0x82,
        0xac, 0xf0, 0x90, 0x8d, 0x88, 0xff, 0x80, 0xbf
    ];
    let mut source = BufStream::new(&data);

    assert_eq!(utf8_decode_be_u64(&mut source).unwrap(), Some(36));
    assert_eq!(utf8_decode_be_u64(&mut source).unwrap(), Some(162));
    assert_eq!(utf8_decode_be_u64(&mut source).unwrap(), Some(2361));
    assert_eq!(utf8_decode_be_u64(&mut source).unwrap(), Some(8364));
    assert_eq!(utf8_decode_be_u64(&mut source).unwrap(), Some(66376));
    assert_eq!(utf8_decode_be_u64(&mut source).unwrap(), None);
    assert_eq!(utf8_decode_be_u64(&mut source).unwrap(), None);
    assert_eq!(utf8_decode_be_u64(&mut source).unwrap(), None);
}

#[test]
fn mod_verify_utf8_decode_be_u64() {
    let mut stream = BufStream::new(&[
        0x24, 0xc2, 0xa2, 0xe0, 0xa4, 0xb9, 0xe2, 0x82,
        0xac, 0xf0, 0x90, 0x8d, 0x88, 0xff, 0x80, 0xbf]);

    assert_eq!(utf8_decode_be_u64(&mut stream).unwrap(), Some(36));
    assert_eq!(utf8_decode_be_u64(&mut stream).unwrap(), Some(162));
    assert_eq!(utf8_decode_be_u64(&mut stream).unwrap(), Some(2361));
    assert_eq!(utf8_decode_be_u64(&mut stream).unwrap(), Some(8364));
    assert_eq!(utf8_decode_be_u64(&mut stream).unwrap(), Some(66376));
    assert_eq!(utf8_decode_be_u64(&mut stream).unwrap(), None);
    assert_eq!(utf8_decode_be_u64(&mut stream).unwrap(), None);
    assert_eq!(utf8_decode_be_u64(&mut stream).unwrap(), None);
}

#[test]
fn io_verify_masks() {
    assert_eq!(mask_at(0), 0b0000_0001);
    assert_eq!(mask_at(1), 0b0000_0010);
    assert_eq!(mask_at(2), 0b0000_0100);
    assert_eq!(mask_at(3), 0b0000_1000);
    assert_eq!(mask_at(4), 0b0001_0000);
    assert_eq!(mask_at(5), 0b0010_0000);
    assert_eq!(mask_at(6), 0b0100_0000);
    assert_eq!(mask_at(7), 0b1000_0000);

    assert_eq!(mask_upper(0), 0b1111_1110);
    assert_eq!(mask_upper(1), 0b1111_1100);
    assert_eq!(mask_upper(2), 0b1111_1000);
    assert_eq!(mask_upper(3), 0b1111_0000);
    assert_eq!(mask_upper(4), 0b1110_0000);
    assert_eq!(mask_upper(5), 0b1100_0000);
    assert_eq!(mask_upper(6), 0b1000_0000);
    assert_eq!(mask_upper(7), 0b0000_0000);

    assert_eq!(mask_upper_eq(0), 0b1111_1111);
    assert_eq!(mask_upper_eq(1), 0b1111_1110);
    assert_eq!(mask_upper_eq(2), 0b1111_1100);
    assert_eq!(mask_upper_eq(3), 0b1111_1000);
    assert_eq!(mask_upper_eq(4), 0b1111_0000);
    assert_eq!(mask_upper_eq(5), 0b1110_0000);
    assert_eq!(mask_upper_eq(6), 0b1100_0000);
    assert_eq!(mask_upper_eq(7), 0b1000_0000);

    assert_eq!(mask_lower(0), 0b0000_0000);
    assert_eq!(mask_lower(1), 0b0000_0001);
    assert_eq!(mask_lower(2), 0b0000_0011);
    assert_eq!(mask_lower(3), 0b0000_0111);
    assert_eq!(mask_lower(4), 0b0000_1111);
    assert_eq!(mask_lower(5), 0b0001_1111);
    assert_eq!(mask_lower(6), 0b0011_1111);
    assert_eq!(mask_lower(7), 0b0111_1111);

    assert_eq!(mask_lower_eq(0), 0b0000_0001);
    assert_eq!(mask_lower_eq(1), 0b0000_0011);
    assert_eq!(mask_lower_eq(2), 0b0000_0111);
    assert_eq!(mask_lower_eq(3), 0b0000_1111);
    assert_eq!(mask_lower_eq(4), 0b0001_1111);
    assert_eq!(mask_lower_eq(5), 0b0011_1111);
    assert_eq!(mask_lower_eq(6), 0b0111_1111);
    assert_eq!(mask_lower_eq(7), 0b1111_1111);

    assert_eq!(mask_range(0, 0), 0b0000_0000);
    assert_eq!(mask_range(1, 1), 0b0000_0000);
    assert_eq!(mask_range(7, 7), 0b0000_0000);
    assert_eq!(mask_range(1, 0), 0b0000_0001);
    assert_eq!(mask_range(2, 0), 0b0000_0011);
    assert_eq!(mask_range(7, 0), 0b0111_1111);
    assert_eq!(mask_range(5, 2), 0b0001_1100);
    assert_eq!(mask_range(7, 2), 0b0111_1100);
    assert_eq!(mask_range(8, 2), 0b1111_1100);
}

#[test]
fn util_verify_masks() {
    assert_eq!(mask_at(0), 0b0000_0001);
    assert_eq!(mask_at(1), 0b0000_0010);
    assert_eq!(mask_at(2), 0b0000_0100);
    assert_eq!(mask_at(3), 0b0000_1000);
    assert_eq!(mask_at(4), 0b0001_0000);
    assert_eq!(mask_at(5), 0b0010_0000);
    assert_eq!(mask_at(6), 0b0100_0000);
    assert_eq!(mask_at(7), 0b1000_0000);

    assert_eq!(mask_upper(0), 0b1111_1110);
    assert_eq!(mask_upper(1), 0b1111_1100);
    assert_eq!(mask_upper(2), 0b1111_1000);
    assert_eq!(mask_upper(3), 0b1111_0000);
    assert_eq!(mask_upper(4), 0b1110_0000);
    assert_eq!(mask_upper(5), 0b1100_0000);
    assert_eq!(mask_upper(6), 0b1000_0000);
    assert_eq!(mask_upper(7), 0b0000_0000);

    assert_eq!(mask_upper_eq(0), 0b1111_1111);
    assert_eq!(mask_upper_eq(1), 0b1111_1110);
    assert_eq!(mask_upper_eq(2), 0b1111_1100);
    assert_eq!(mask_upper_eq(3), 0b1111_1000);
    assert_eq!(mask_upper_eq(4), 0b1111_0000);
    assert_eq!(mask_upper_eq(5), 0b1110_0000);
    assert_eq!(mask_upper_eq(6), 0b1100_0000);
    assert_eq!(mask_upper_eq(7), 0b1000_0000);

    assert_eq!(mask_lower(0), 0b0000_0000);
    assert_eq!(mask_lower(1), 0b0000_0001);
    assert_eq!(mask_lower(2), 0b0000_0011);
    assert_eq!(mask_lower(3), 0b0000_0111);
    assert_eq!(mask_lower(4), 0b0000_1111);
    assert_eq!(mask_lower(5), 0b0001_1111);
    assert_eq!(mask_lower(6), 0b0011_1111);
    assert_eq!(mask_lower(7), 0b0111_1111);

    assert_eq!(mask_lower_eq(0), 0b0000_0001);
    assert_eq!(mask_lower_eq(1), 0b0000_0011);
    assert_eq!(mask_lower_eq(2), 0b0000_0111);
    assert_eq!(mask_lower_eq(3), 0b0000_1111);
    assert_eq!(mask_lower_eq(4), 0b0001_1111);
    assert_eq!(mask_lower_eq(5), 0b0011_1111);
    assert_eq!(mask_lower_eq(6), 0b0111_1111);
    assert_eq!(mask_lower_eq(7), 0b1111_1111);

    assert_eq!(mask_range(0, 0), 0b0000_0000);
    assert_eq!(mask_range(1, 1), 0b0000_0000);
    assert_eq!(mask_range(7, 7), 0b0000_0000);
    assert_eq!(mask_range(1, 0), 0b0000_0001);
    assert_eq!(mask_range(2, 0), 0b0000_0011);
    assert_eq!(mask_range(7, 0), 0b0111_1111);
    assert_eq!(mask_range(5, 2), 0b0001_1100);
    assert_eq!(mask_range(7, 2), 0b0111_1100);
    assert_eq!(mask_range(8, 2), 0b1111_1100);
}

#[test]
fn io_verify_read_bit() {
    let data: Vec<u8> = vec![0b1010_1010];
    let mut source = BufStream::new(&data);
    let mut br = BitReaderLtr::new();

    assert_eq!(br.read_bit(&mut source).unwrap(), true);
    assert_eq!(br.read_bit(&mut source).unwrap(), false);
    assert_eq!(br.read_bit(&mut source).unwrap(), true);
    assert_eq!(br.read_bit(&mut source).unwrap(), false);
    assert_eq!(br.read_bit(&mut source).unwrap(), true);
    assert_eq!(br.read_bit(&mut source).unwrap(), false);
    assert_eq!(br.read_bit(&mut source).unwrap(), true);
    assert_eq!(br.read_bit(&mut source).unwrap(), false);
}

#[test]
fn io_verify_read_bits_leq32() {
    let data: Vec<u8> = vec![0b1010_0101, 0b0111_1110, 0b1101_0011];
    let mut source = BufStream::new(&data);

    let mut br = BitReaderLtr::new();

    assert_eq!(br.read_bits_leq32(&mut source,  4).unwrap(), 0b0000_0000_0000_1010);
    assert_eq!(br.read_bits_leq32(&mut source,  4).unwrap(), 0b0000_0000_0000_0101);
    assert_eq!(br.read_bits_leq32(&mut source, 13).unwrap(), 0b0000_1111_1101_1010);
    assert_eq!(br.read_bits_leq32(&mut source,  3).unwrap(), 0b0000_0000_0000_0011);
}

#[test]
fn io_verify_read_bits_leq64() {
    let data: Vec<u8> = vec![0x99, 0xaa, 0x55, 0xff, 0xff, 0x55, 0xaa, 0x99, 0x11, 0x22, 0x33, 0x44, 0x55, 0x66, 0x77, 0x88];
    let mut source = BufStream::new(&data);

    let mut br = BitReaderLtr::new();

    assert_eq!(br.read_bits_leq64(&mut source, 40).unwrap(), 0x99aa55ffff);
    assert_eq!(br.read_bits_leq64(&mut source,  4).unwrap(), 0x05);
    assert_eq!(br.read_bits_leq64(&mut source,  4).unwrap(), 0x05);
    assert_eq!(br.read_bits_leq64(&mut source, 16).unwrap(), 0xaa99);
    assert_eq!(br.read_bits_leq64(&mut source, 64).unwrap(), 0x1122334455667788);
}

#[test]
fn io_verify_read_unary() {
    let data: Vec<u8> = vec![0b0000_0001, 0b0001_0000, 0b0000_0000, 0b1000_0000, 0b1111_1011];
    let mut source = BufStream::new(&data);

    let mut br = BitReaderLtr::new();

    assert_eq!(br.read_unary(&mut source).unwrap(),  7);
    assert_eq!(br.read_unary(&mut source).unwrap(),  3);
    assert_eq!(br.read_unary(&mut source).unwrap(), 12);
    assert_eq!(br.read_unary(&mut source).unwrap(),  7);
    assert_eq!(br.read_unary(&mut source).unwrap(),  0);
    assert_eq!(br.read_unary(&mut source).unwrap(),  0);
    assert_eq!(br.read_unary(&mut source).unwrap(),  0);
    assert_eq!(br.read_unary(&mut source).unwrap(),  0);
    assert_eq!(br.read_unary(&mut source).unwrap(),  1);
    assert_eq!(br.read_unary(&mut source).unwrap(),  0);
}

#[test]
fn bit_verify_read_bit() {
    let mut stream = BufStream::new(&[0b1010_1010]);

    let mut br = BitReaderLtr::new();

    assert_eq!(br.read_bit(&mut stream).unwrap(), true);
    assert_eq!(br.read_bit(&mut stream).unwrap(), false);
    assert_eq!(br.read_bit(&mut stream).unwrap(), true);
    assert_eq!(br.read_bit(&mut stream).unwrap(), false);
    assert_eq!(br.read_bit(&mut stream).unwrap(), true);
    assert_eq!(br.read_bit(&mut stream).unwrap(), false);
    assert_eq!(br.read_bit(&mut stream).unwrap(), true);
    assert_eq!(br.read_bit(&mut stream).unwrap(), false);
}

#[test]
fn bit_verify_read_bits_leq32() {
    let mut stream = BufStream::new(&[0b1010_0101, 0b0111_1110, 0b1101_0011]);

    let mut br = BitReaderLtr::new();

    assert_eq!(br.read_bits_leq32(&mut stream,  4).unwrap(), 0b0000_0000_0000_1010);
    assert_eq!(br.read_bits_leq32(&mut stream,  4).unwrap(), 0b0000_0000_0000_0101);
    assert_eq!(br.read_bits_leq32(&mut stream, 13).unwrap(), 0b0000_1111_1101_1010);
    assert_eq!(br.read_bits_leq32(&mut stream,  3).unwrap(), 0b0000_0000_0000_0011);
}

#[test]
fn bit_verify_read_bits_leq64() {
    let mut stream = BufStream::new(
        &[0x99, 0xaa, 0x55, 0xff, 0xff, 0x55, 0xaa, 0x99, 
          0x11, 0x22, 0x33, 0x44, 0x55, 0x66, 0x77, 0x88]);

    let mut br = BitReaderLtr::new();

    assert_eq!(br.read_bits_leq64(&mut stream, 40).unwrap(), 0x99aa55ffff);
    assert_eq!(br.read_bits_leq64(&mut stream,  4).unwrap(), 0x05);
    assert_eq!(br.read_bits_leq64(&mut stream,  4).unwrap(), 0x05);
    assert_eq!(br.read_bits_leq64(&mut stream, 16).unwrap(), 0xaa99);
    assert_eq!(br.read_bits_leq64(&mut stream, 64).unwrap(), 0x1122334455667788);
}

#[test]
fn bit_verify_read_unary() {
    let mut stream = BufStream::new(
        &[0b0000_0001, 0b0001_0000, 0b0000_0000, 0b1000_0000, 0b1111_1011]);

    let mut br = BitReaderLtr::new();

    assert_eq!(br.read_unary(&mut stream).unwrap(),  7);
    assert_eq!(br.read_unary(&mut stream).unwrap(),  3);
    assert_eq!(br.read_unary(&mut stream).unwrap(), 12);
    assert_eq!(br.read_unary(&mut stream).unwrap(),  7);
    assert_eq!(br.read_unary(&mut stream).unwrap(),  0);
    assert_eq!(br.read_unary(&mut stream).unwrap(),  0);
    assert_eq!(br.read_unary(&mut stream).unwrap(),  0);
    assert_eq!(br.read_unary(&mut stream).unwrap(),  0);
    assert_eq!(br.read_unary(&mut stream).unwrap(),  1);
    assert_eq!(br.read_unary(&mut stream).unwrap(),  0);
}

#[test]
fn verify_read_huffman() {
    // A simple Huffman table. A jump entry is (bits to read next, sub-table offset); a value
    // entry is (0x8000 | code length, value).
    const TABLE: HuffmanTable<H8> = HuffmanTable {
        data: &[
            // 0b ... (0)
            (2, 16),         // 0b0000
            (1, 20),         // 0b0001
            (0x8003, 0x11),  // 0b0010
            (0x8003, 0x11),  // 0b0011
            (0x8003, 0x1),   // 0b0100
            (0x8003, 0x1),   // 0b0101
            (0x8003, 0x10),  // 0b0110
            (0x8003, 0x10),  // 0b0111
            (0x8001, 0x0),   // 0b1000
            (0x8001, 0x0),   // 0b1001
            (0x8001, 0x0),   // 0b1010
            (0x8001, 0x0),   // 0b1011
            (0x8001, 0x0),   // 0b1100
            (0x8001, 0x0),   // 0b1101
            (0x8001, 0x0),   // 0b1110
            (0x8001, 0x0),   // 0b1111

            // 0b0000 ... (16)
            (0x8002, 0x22),  // 0b00
            (0x8002, 0x2),   // 0b01
            (0x8001, 0x12),  // 0b10
            (0x8001, 0x12),  // 0b11

            // 0b0001 ... (20)
            (0x8001, 0x21),  // 0b0
            (0x8001, 0x20),  // 0b1
        ],
        n_init_bits: 4,
        n_table_bits: 8,
    };

    let mut stream = BufStream::new(&[0b010_00000, 0b0_00001_00, 0b0001_001_0]);

    let mut br = BitReaderLtr::new();

    assert_eq!(br.read_huffman(&mut stream, &TABLE, 24).unwrap().0, 0x1 );
    assert_eq!(br.read_huffman(&mut stream, &TABLE, 21).unwrap().0, 0x22);
    assert_eq!(br.read_huffman(&mut stream, &TABLE, 15).unwrap().0, 0x12);
    assert_eq!(br.read_huffman(&mut stream, &TABLE, 10).unwrap().0, 0x2 );
    assert_eq!(br.read_huffman(&mut stream, &TABLE,  3).unwrap().0, 0x11);
}

#[test]
fn read_huffman_code_lengths_and_limit() {
    const TABLE: HuffmanTable<H8> = HuffmanTable {
        data: &[(0x8001, 7), (0x8001, 7), (1, 4), (1, 4), (0x8001, 9), (0x8001, 9), (0x8001, 9), (0x8001, 9),
                (0x8001, 9), (0x8001, 9), (0x8001, 9), (0x8001, 9), (0x8001, 9), (0x8001, 9), (0x8001, 9), (0x8001, 9)],
        n_init_bits: 2,
        n_table_bits: 3,
    };
    // First code "0" (one bit, value 7); the second look-up reads one extra bit that is kept.
    let mut stream = BufStream::new(&[0b0100_0000]);
    let mut br = BitReaderLtr::new();
    assert_eq!(br.read_huffman(&mut stream, &TABLE, 8).unwrap(), (7, 1));
    // "10" then a jump that reads one more bit: a three-bit code.
    assert_eq!(br.read_huffman(&mut stream, &TABLE, 8).unwrap(), (9, 3));
    // With a limit of two bits the jump cannot be followed: the look-up fails.
    let mut stream = BufStream::new(&[0b1000_0000]);
    let mut br = BitReaderLtr::new();
    assert!(br.read_huffman(&mut stream, &TABLE, 2).is_err());
}

#[test]
fn stream_position_counts_the_bytes_read() {
    let data: Vec<u8> = (0u8..16).collect();
    let mut s = BufStream::new(&data);
    assert_eq!(s.pos(), 0);
    assert_eq!(s.read_byte(), Ok(0));
    assert_eq!(s.pos(), 1);
    assert_eq!(s.read_double_bytes(), Ok([1, 2]));
    assert_eq!(s.pos(), 3);
    assert_eq!(s.read_triple_bytes(), Ok([3, 4, 5]));
    assert_eq!(s.pos(), 6);
    assert_eq!(s.read_quad_bytes(), Ok([6, 7, 8, 9]));
    assert_eq!(s.pos(), 10);
    assert_eq!(s.ignore_bytes(5), Ok(()));
    assert_eq!(s.pos(), 15);
    assert_eq!(s.read_byte(), Ok(15));
    assert_eq!(s.pos(), 16);
    assert!(s.read_byte().is_err());
    assert!(s.pos() <= data.len());
}
