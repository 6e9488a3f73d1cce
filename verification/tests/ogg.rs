use sonata::errors::Error;
use sonata::io::BufStream;
use sonata::ogg::logical::LogicalStream;
use sonata::ogg::page::PageHeader;

fn page(n_segments: u8, is_continuation: bool) -> PageHeader {
    PageHeader { n_segments, is_continuation, ..Default::default() }
}

fn body(segments: &[u8], fill: u8) -> Vec<u8> {
    let mut b = segments.to_vec();
    let total: usize = segments.iter().map(|&s| s as usize).sum();
    b.extend((0..total).map(|i| fill.wrapping_add(i as u8)));
    b
}

#[test]
fn logical_stream_queues_the_packets_of_a_page() {
    // Segments of 3, then 255 and 10: a packet of 3 bytes, then one of 265.
    let data = body(&[3, 255, 10], 0);
    let mut reader = BufStream::new(&data);
    let mut stream = LogicalStream::default();
    assert_eq!(stream.read(&mut reader, &page(3, false)), Ok(()));
    assert_eq!(reader.pos(), data.len());
    assert_eq!(stream.next_packet().unwrap(), vec![0, 1, 2]);
    // Without a consume, the same packet comes again.
    assert_eq!(stream.next_packet().unwrap(), vec![0, 1, 2]);
    stream.consume_packet();
    let p = stream.next_packet().unwrap();
    assert_eq!(p.len(), 265);
    assert_eq!(p[0], 3);
    stream.consume_packet();
    assert_eq!(stream.next_packet(), None);
    stream.consume_packet();
    assert_eq!(stream.next_packet(), None);
}

#[test]
fn logical_stream_continues_a_packet_across_pages() {
    let mut data = body(&[255], 0);
    data.extend(body(&[5], 100));
    let mut reader = BufStream::new(&data);
    let mut stream = LogicalStream::default();
    stream.read(&mut reader, &page(1, false)).unwrap();
    assert_eq!(stream.next_packet(), None);
    stream.read(&mut reader, &page(1, true)).unwrap();
    let p = stream.next_packet().unwrap();
    assert_eq!(p.len(), 260);
    assert_eq!(&p[253..], &[253, 254, 100, 101, 102, 103, 104]);
}

#[test]
fn logical_stream_page_that_does_not_continue_drops_the_unfinished_packet() {
    let mut data = vec![255u8];
    data.extend(vec![0xAAu8; 255]);
    data.extend(vec![2u8, 0x01, 0x02]);
    let mut reader = BufStream::new(&data);
    let mut stream = LogicalStream::default();
    stream.read(&mut reader, &page(1, false)).unwrap();
    assert_eq!(stream.next_packet(), None);
    stream.read(&mut reader, &page(1, false)).unwrap();
    assert_eq!(stream.next_packet(), Some(vec![0x01u8, 0x02]));
    stream.consume_packet();
    assert_eq!(stream.next_packet(), None);
}

#[test]
fn logical_stream_reset_drops_everything() {
    let data = body(&[3, 4], 0);
    let mut reader = BufStream::new(&data);
    let mut stream = LogicalStream::default();
    stream.read(&mut reader, &page(2, false)).unwrap();
    stream.reset();
    assert_eq!(stream.next_packet(), None);
}

#[test]
fn logical_stream_short_page_is_an_error() {
    let data = [3u8, 1, 2];
    let mut reader = BufStream::new(&data);
    let mut stream = LogicalStream::default();
    assert_eq!(
        stream.read(&mut reader, &page(1, false)),
        Err(Error::IoError(sonata::errors::IoErrorKind::UnexpectedEof))
    );
    let data = [3u8];
    let mut reader = BufStream::new(&data);
    let mut stream = LogicalStream::default();
    assert!(stream.read(&mut reader, &page(2, false)).is_err());
}

fn ogg_crc(bytes: &[u8]) -> u32 {
    let mut c: u32 = 0;
    for &b in bytes {
        c ^= (b as u32) << 24;
        for _ in 0..8 {
            c = if c & 0x8000_0000 != 0 { (c << 1) ^ 0x04c1_1db7 } else { c << 1 };
        }
    }
    c
}

fn ogg_page(flags: u8, serial: u32, sequence: u32, segments: &[u8], body: &[u8]) -> Vec<u8> {
    let mut p = b"OggS".to_vec();
    p.push(0);
    p.push(flags);
    p.extend_from_slice(&7u64.to_le_bytes());
    p.extend_from_slice(&serial.to_le_bytes());
    p.extend_from_slice(&sequence.to_le_bytes());
    p.extend_from_slice(&[0, 0, 0, 0]);
    p.push(segments.len() as u8);
    p.extend_from_slice(segments);
    p.extend_from_slice(body);
    let crc = ogg_crc(&p);
    p[22..26].copy_from_slice(&crc.to_le_bytes());
    p
}

#[test]
fn ogg_page_header_fields() {
    let page = ogg_page(0x02, 0x1234, 5, &[3], &[1, 2, 3]);
    let mut reader = BufStream::new(&page);
    let h = sonata::ogg::page::read_page_header(&mut reader).unwrap();
    assert_eq!(h.version, 0);
    assert_eq!(h.ts, 7);
    assert_eq!(h.serial, 0x1234);
    assert_eq!(h.sequence, 5);
    assert_eq!(h.crc, u32::from_le_bytes([page[22], page[23], page[24], page[25]]));
    assert_eq!(h.n_segments, 1);
    assert!(h.is_first_page && !h.is_continuation && !h.is_last_page);
    assert_eq!(reader.pos(), 27);
}

#[test]
fn ogg_page_header_errors() {
    let mut page = ogg_page(0, 1, 0, &[], &[]);
    page[0] = b'X';
    assert_eq!(
        sonata::ogg::page::read_page_header(&mut BufStream::new(&page)).err(),
        Some(Error::Unsupported("missing ogg stream marker"))
    );
    let mut page = ogg_page(0, 1, 0, &[], &[]);
    page[4] = 1;
    assert_eq!(
        sonata::ogg::page::read_page_header(&mut BufStream::new(&page)).err(),
        Some(Error::Unsupported("invalid ogg version"))
    );
    let page = ogg_page(0x08, 1, 0, &[], &[]);
    assert_eq!(
        sonata::ogg::page::read_page_header(&mut BufStream::new(&page)).err(),
        Some(Error::DecodeError("invalid flag bits set"))
    );
    let page = ogg_page(0, 1, 0, &[], &[]);
    assert!(sonata::ogg::page::read_page_header(&mut BufStream::new(&page[..20])).is_err());
}

#[test]
fn ogg_physical_stream_packets_across_pages_and_streams() {
    let mut data = ogg_page(0x02, 1, 0, &[2, 1], &[10, 11, 12]);
    data.extend(ogg_page(0x02, 2, 0, &[1], &[20]));
    let mut reader = BufStream::new(&data);
    let mut ps = sonata::ogg::physical::PhysicalStream::default();
    let p = ps.next_packet(&mut reader).unwrap();
    assert_eq!((p.serial, p.data.clone()), (1, vec![10, 11]));
    // Until consumed, the same packet comes back.
    let p = ps.next_packet(&mut reader).unwrap();
    assert_eq!(p.data, vec![10, 11]);
    ps.consume_packet();
    let p = ps.next_packet(&mut reader).unwrap();
    assert_eq!((p.serial, p.data.clone()), (1, vec![12]));
    ps.consume_packet();
    let p = ps.next_packet(&mut reader).unwrap();
    assert_eq!((p.serial, p.data.clone()), (2, vec![20]));
    assert_eq!(ps.current_page().serial, 2);
    ps.consume_packet();
    assert!(ps.next_packet(&mut reader).is_err());
}

#[test]
fn ogg_physical_stream_crc_mismatch() {
    let mut data = ogg_page(0x02, 1, 0, &[2], &[10, 11]);
    data[28] ^= 0xff;
    let mut reader = BufStream::new(&data);
    let mut ps = sonata::ogg::physical::PhysicalStream::default();
    assert!(matches!(ps.next_packet(&mut reader), Err(Error::DecodeError("crc failure"))));
}

#[test]
fn logical_stream_reads_pages_with_packets_still_queued() {
    // A page completing a 3-byte packet and beginning another.
    let mut data = vec![3u8, 255];
    data.extend(vec![7u8, 8, 9]);
    data.extend(vec![0xAAu8; 255]);
    // A continuation page finishing the begun packet with 1 more byte.
    data.extend(vec![1u8, 0xBB]);
    // A page that does not continue, while a packet is begun again.
    data.extend(vec![255u8]);
    data.extend(vec![0xCCu8; 255]);
    data.extend(vec![2u8, 5, 6]);
    let mut reader = BufStream::new(&data);
    let mut stream = LogicalStream::default();
    stream.read(&mut reader, &page(2, false)).unwrap();
    stream.read(&mut reader, &page(1, true)).unwrap();
    stream.read(&mut reader, &page(1, true)).unwrap();
    stream.read(&mut reader, &page(1, false)).unwrap();
    assert_eq!(stream.next_packet(), Some(vec![7u8, 8, 9]));
    stream.consume_packet();
    let mut second = vec![0xAAu8; 255];
    second.push(0xBB);
    assert_eq!(stream.next_packet(), Some(second));
    stream.consume_packet();
    // The packet begun by the third page was dropped by the fourth.
    assert_eq!(stream.next_packet(), Some(vec![5u8, 6]));
    stream.consume_packet();
    assert_eq!(stream.next_packet(), None);
}
