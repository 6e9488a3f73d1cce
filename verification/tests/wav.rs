use sonata::errors::Error;
use sonata::io::BufStream;
use sonata::wav::chunks::{ChunksReader, RiffWaveChunks, WaveFormatData};

fn le16(v: u16) -> [u8; 2] {
    v.to_le_bytes()
}

fn le32(v: u32) -> [u8; 4] {
    v.to_le_bytes()
}

/// The chunks of a WAVE file after its RIFF header: an unknown chunk of odd length, a format
/// chunk for 16-bit stereo PCM at 44.1kHz, a fact chunk, an INFO list and the data chunk.
fn wave_chunks(fmt_tag: u16, bits: u16) -> Vec<u8> {
    let mut d = Vec::new();
    d.extend_from_slice(b"junk");
    d.extend_from_slice(&le32(3));
    d.extend_from_slice(&[9, 9, 9, 0]);
    d.extend_from_slice(b"fmt ");
    d.extend_from_slice(&le32(16));
    d.extend_from_slice(&le16(fmt_tag));
    d.extend_from_slice(&le16(2));
    d.extend_from_slice(&le32(44100));
    d.extend_from_slice(&le32(44100 * 4));
    d.extend_from_slice(&le16(4));
    d.extend_from_slice(&le16(bits));
    d.extend_from_slice(b"fact");
    d.extend_from_slice(&le32(4));
    d.extend_from_slice(&le32(1234));
    d.extend_from_slice(b"LIST");
    d.extend_from_slice(&le32(8));
    d.extend_from_slice(b"INFO");
    d.extend_from_slice(&[1, 2, 3, 4]);
    d.extend_from_slice(b"data");
    d.extend_from_slice(&le32(4));
    d.extend_from_slice(&[0, 0, 0, 0]);
    d
}

#[test]
fn riff_chunks_are_recognized_and_parsed() {
    let data = wave_chunks(1, 16);
    let mut reader = BufStream::new(&data);
    let mut chunks = ChunksReader::<RiffWaveChunks>::new(data.len() as u32);
    // The unknown chunk and its pad byte are skipped.
    match chunks.next(&mut reader).unwrap() {
        Some(RiffWaveChunks::Format(fmt)) => {
            let f = fmt.parse(&mut reader).unwrap();
            assert_eq!(f.n_channels, 2);
            assert_eq!(f.sample_rate, 44100);
            assert_eq!(f.avg_bytes_per_sec, 176400);
            assert_eq!(f.block_align, 4);
            match f.format_data {
                WaveFormatData::Pcm(pcm) => assert_eq!(pcm.bits_per_sample, 16),
                _ => panic!("not PCM"),
            }
        },
        _ => panic!("no format chunk"),
    }
    match chunks.next(&mut reader).unwrap() {
        Some(RiffWaveChunks::Fact(fact)) => assert_eq!(fact.parse(&mut reader).unwrap().n_frames, 1234),
        _ => panic!("no fact chunk"),
    }
    match chunks.next(&mut reader).unwrap() {
        Some(RiffWaveChunks::List(list)) => {
            let l = list.parse(&mut reader).unwrap();
            assert_eq!(&l.form, b"INFO");
            assert_eq!(l.len, 4);
            l.skip(&mut reader).unwrap();
        },
        _ => panic!("no list chunk"),
    }
    assert!(matches!(chunks.next(&mut reader).unwrap(), Some(RiffWaveChunks::Data)));
}

#[test]
fn format_chunk_errors() {
    // 12-bit PCM samples are not whole bytes.
    let data = wave_chunks(1, 12);
    let mut reader = BufStream::new(&data);
    let mut chunks = ChunksReader::<RiffWaveChunks>::new(data.len() as u32);
    match chunks.next(&mut reader).unwrap() {
        Some(RiffWaveChunks::Format(fmt)) => assert!(matches!(fmt.parse(&mut reader), Err(Error::DecodeError(_)))),
        _ => panic!("no format chunk"),
    }
    // An unknown format tag.
    let data = wave_chunks(0x55, 16);
    let mut reader = BufStream::new(&data);
    let mut chunks = ChunksReader::<RiffWaveChunks>::new(data.len() as u32);
    match chunks.next(&mut reader).unwrap() {
        Some(RiffWaveChunks::Format(fmt)) => {
            assert_eq!(fmt.parse(&mut reader).err(), Some(Error::Unsupported("Unsupported Wave Format.")))
        },
        _ => panic!("no format chunk"),
    }
}

#[test]
fn chunks_end_with_the_parent() {
    let data = wave_chunks(1, 16);
    let mut reader = BufStream::new(&data);
    // A parent too short for the first chunk header holds no chunk.
    let mut chunks = ChunksReader::<RiffWaveChunks>::new(7);
    assert!(chunks.next(&mut reader).unwrap().is_none());
}

#[test]
fn it_works() {
    assert_eq!(2 + 2, 4);
}

fn wave_file(with_data: bool) -> Vec<u8> {
    let mut body: Vec<u8> = Vec::new();
    body.extend_from_slice(b"WAVE");
    // A PCM format chunk: 2 channels, 44.1kHz, 4 byte frames of 16-bit samples.
    body.extend_from_slice(b"fmt ");
    body.extend_from_slice(&16u32.to_le_bytes());
    body.extend_from_slice(&1u16.to_le_bytes());
    body.extend_from_slice(&2u16.to_le_bytes());
    body.extend_from_slice(&44100u32.to_le_bytes());
    body.extend_from_slice(&(44100u32 * 4).to_le_bytes());
    body.extend_from_slice(&4u16.to_le_bytes());
    body.extend_from_slice(&16u16.to_le_bytes());
    // A fact chunk: 10 frames.
    body.extend_from_slice(b"fact");
    body.extend_from_slice(&4u32.to_le_bytes());
    body.extend_from_slice(&10u32.to_le_bytes());
    // An INFO list with one entry of odd length, then its pad byte.
    body.extend_from_slice(b"LIST");
    body.extend_from_slice(&16u32.to_le_bytes());
    body.extend_from_slice(b"INFO");
    body.extend_from_slice(b"INAM");
    body.extend_from_slice(&3u32.to_le_bytes());
    body.extend_from_slice(b"abc\0");
    if with_data {
        body.extend_from_slice(b"data");
        body.extend_from_slice(&40u32.to_le_bytes());
        body.extend_from_slice(&[0u8; 40]);
    }
    let mut file = b"RIFF".to_vec();
    file.extend_from_slice(&(body.len() as u32).to_le_bytes());
    file.extend_from_slice(&body);
    file
}

#[test]
fn wav_reader_finds_the_format_and_the_data() {
    let file = wave_file(true);
    let reader = sonata::wav::reader::WavReader::try_new(sonata::io::BufStream::new(&file));
    let mut reader = match reader {
        Ok(r) => r,
        Err(e) => panic!("{:?}", e),
    };
    let params = reader.streams()[0].codec_params;
    assert_eq!(reader.streams().len(), 1);
    assert_eq!(params.sample_rate, Some(44100));
    assert_eq!(params.bits_per_sample, Some(16));
    assert_eq!(params.bits_per_coded_sample, Some(16));
    assert_eq!(params.n_frames, Some(10));
    assert_eq!(params.max_frames_per_packet, Some(4096));
    assert_eq!(reader.seek(3), Ok(3));
    assert_eq!(reader.seek(10), Ok(10));
    assert_eq!(
        reader.seek(11),
        Err(sonata::errors::Error::SeekError(sonata::errors::SeekErrorKind::OutOfRange))
    );
}

#[test]
fn wav_reader_errors() {
    let file = wave_file(false);
    assert!(matches!(
        sonata::wav::reader::WavReader::try_new(sonata::io::BufStream::new(&file)),
        Err(Error::Unsupported("missing data chunk"))
    ));
    let mut bad = wave_file(true);
    bad[0] = b'X';
    assert!(matches!(
        sonata::wav::reader::WavReader::try_new(sonata::io::BufStream::new(&bad)),
        Err(Error::Unsupported("missing riff stream marker"))
    ));
    let mut bad = wave_file(true);
    bad[8] = b'X';
    assert!(matches!(
        sonata::wav::reader::WavReader::try_new(sonata::io::BufStream::new(&bad)),
        Err(Error::Unsupported("riff form is not wave"))
    ));
    assert!(matches!(
        sonata::wav::reader::WavReader::try_new(sonata::io::BufStream::new(&file[..6])),
        Err(Error::IoError(_))
    ));
}

#[test]
fn wav_reader_open_knows_no_stream_and_cannot_seek() {
    let file = wave_file(true);
    let mut reader = sonata::wav::reader::WavReader::open(sonata::io::BufStream::new(&file));
    assert_eq!(reader.streams().len(), 0);
    assert_eq!(
        reader.seek(0),
        Err(sonata::errors::Error::SeekError(sonata::errors::SeekErrorKind::Unseekable))
    );
}
