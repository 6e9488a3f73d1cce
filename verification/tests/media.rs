use sonata::errors::{Error, IoErrorKind};
use sonata::io::{MediaSource, MediaSourceStream, MemorySource};

fn pattern(n: usize) -> Vec<u8> {
    (0..n).map(|i| ((i * 7) % 251) as u8).collect()
}

#[test]
fn memory_source_reads_in_order() {
    let mut src = MemorySource::new(vec![1, 2, 3, 4, 5]);
    assert_eq!(src.read_bytes(2).unwrap(), vec![1, 2]);
    assert_eq!(src.read_bytes(10).unwrap(), vec![3, 4, 5]);
    assert_eq!(src.read_bytes(10).unwrap(), Vec::<u8>::new());
    assert!(src.is_seekable());
    assert_eq!(src.byte_len(), Some(5));
}

#[test]
fn stream_reads_the_source_bytes() {
    let data = pattern(10000);
    let mut mss = MediaSourceStream::new(MemorySource::new(data.clone()));
    for i in 0..5000 {
        assert_eq!(mss.read_byte().unwrap(), data[i]);
    }
    assert_eq!(mss.pos(), 5000);
    let rest = mss.read_buf_bytes(5000).unwrap();
    assert_eq!(rest, data[5000..].to_vec());
    assert_eq!(mss.read_byte(), Err(Error::IoError(IoErrorKind::UnexpectedEof)));
    assert_eq!(mss.pos(), 10000);
}

#[test]
fn stream_rewinds_within_the_active_partition() {
    let data = pattern(10000);
    let mut mss = MediaSourceStream::new(MemorySource::new(data.clone()));
    mss.read_buf_bytes(500).unwrap();
    assert_eq!(mss.rewindable_bytes(), 500);
    assert_eq!(mss.buffered_bytes(), 524);
    assert_eq!(mss.rewind(200), 200);
    assert_eq!(mss.pos(), 300);
    assert_eq!(mss.read_buf_bytes(10).unwrap(), data[300..310].to_vec());
}

#[test]
fn stream_rewinds_into_the_earlier_partition() {
    let data = pattern(10000);
    let mut mss = MediaSourceStream::new(MemorySource::new(data.clone()));
    // 1kB fills the first partition, the next 2kB the second.
    mss.read_buf_bytes(1500).unwrap();
    assert_eq!(mss.rewindable_bytes(), 1500);
    assert_eq!(mss.rewind(600), 600);
    assert_eq!(mss.pos(), 900);
    // Reading on crosses back into the later partition.
    assert_eq!(mss.read_buf_bytes(400).unwrap(), data[900..1300].to_vec());
    assert_eq!(mss.pos(), 1300);
}

#[test]
fn stream_refuses_a_rewind_past_its_buffer() {
    let data = pattern(10000);
    let mut mss = MediaSourceStream::new(MemorySource::new(data.clone()));
    // The first 1kB partition is reused for the 4kB block after the 2kB one.
    mss.read_buf_bytes(3172).unwrap();
    assert_eq!(mss.rewindable_bytes(), 2148);
    assert_eq!(mss.rewind(2200), 0);
    assert_eq!(mss.pos(), 3172);
    assert_eq!(mss.rewind(2148), 2148);
    assert_eq!(mss.pos(), 1024);
    assert_eq!(mss.read_byte().unwrap(), data[1024]);
}

#[test]
fn stream_stays_rewindable_after_reading_on() {
    let data = pattern(10000);
    let mut mss = MediaSourceStream::new(MemorySource::new(data.clone()));
    // Read to the end of the three blocks read so far: 1kB, 2kB, then 4kB.
    mss.read_buf_bytes(7168).unwrap();
    assert_eq!(mss.buffered_bytes(), 0);
    assert_eq!(mss.rewindable_bytes(), 6144);
    // A short source is rewindable by all of it.
    let mut short = MediaSourceStream::new(MemorySource::new(pattern(10)));
    short.read_buf_bytes(10).unwrap();
    assert_eq!(short.buffered_bytes(), 0);
    assert_eq!(short.rewindable_bytes(), 10);
    assert_eq!(short.rewind(10), 10);
    assert_eq!(short.read_buf_bytes(10).unwrap(), pattern(10));
}

#[test]
fn stream_rewind_after_a_kilobyte_restores_the_bytes() {
    let v: Vec<u8> = (0..3000).map(|i| (i % 200) as u8 + 1).collect();
    let mut s = MediaSourceStream::new(MemorySource::new(v.clone()));
    for i in 0..1100 {
        assert_eq!(s.read_byte().unwrap(), v[i]);
    }
    assert_eq!(s.rewind(100), 100);
    assert_eq!(s.pos(), 1000);
    for i in 1000..1100 {
        assert_eq!(s.read_byte().unwrap(), v[i]);
    }
}

#[test]
fn stream_multi_byte_reads_and_skips_advance_the_position() {
    let v = pattern(5000);
    let mut s = MediaSourceStream::new(MemorySource::new(v.clone()));
    assert_eq!(s.pos(), 0);
    assert_eq!(s.read_double_bytes().unwrap(), [v[0], v[1]]);
    assert_eq!(s.read_triple_bytes().unwrap(), [v[2], v[3], v[4]]);
    assert_eq!(s.read_quad_bytes().unwrap(), [v[5], v[6], v[7], v[8]]);
    assert_eq!(s.pos(), 9);
    s.ignore_bytes(2000).unwrap();
    assert_eq!(s.pos(), 2009);
    assert_eq!(s.read_byte().unwrap(), v[2009]);
    s.ignore_bytes(2989).unwrap();
    assert_eq!(s.pos(), 4999);
    assert_eq!(s.read_double_bytes().err(), Some(Error::IoError(IoErrorKind::UnexpectedEof)));
}
