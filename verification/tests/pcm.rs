use sonata::audio::{Channels, Signal};
use sonata::codecs::{CodecParameters, CodecType, Decoder, DecoderOptions};
use sonata::errors::Error;
use sonata::formats::Packet;
use sonata::pcm::{alaw_to_linear, mulaw_to_linear, PcmDecoder};

#[test]
fn alaw_expands_to_linear() {
    assert_eq!(alaw_to_linear(0xd5), 8);
    assert_eq!(alaw_to_linear(0x55), -8);
    assert_eq!(alaw_to_linear(0x80), 5504);
    assert_eq!(alaw_to_linear(0x00), -5504);
    assert_eq!(alaw_to_linear(0xaa), 32256);
    assert_eq!(alaw_to_linear(0x2a), -32256);
    assert_eq!(alaw_to_linear(0xff), 848);
}

#[test]
fn mulaw_expands_to_linear() {
    assert_eq!(mulaw_to_linear(0xff), 0);
    assert_eq!(mulaw_to_linear(0x7f), 0);
    assert_eq!(mulaw_to_linear(0x00), 32124);
    assert_eq!(mulaw_to_linear(0x80), -32124);
    assert_eq!(mulaw_to_linear(0x0f), 16764);
    assert_eq!(mulaw_to_linear(0xf0), -120);
}

fn stereo_params(codec: CodecType, bits: Option<u32>) -> CodecParameters {
    let mut params = CodecParameters::new();
    params.for_codec(codec);
    params.with_sample_rate(8000);
    params.with_max_frames_per_packet(4);
    params.with_channels(Channels::front_left() | Channels::front_right());
    if let Some(b) = bits {
        params.with_bits_per_sample(b);
    }
    params
}

#[test]
fn pcm_decoder_deinterleaves_and_scales_samples() {
    let params = stereo_params(CodecType::PcmS16le, Some(16));
    let mut decoder = PcmDecoder::try_new(&params, &DecoderOptions::default()).unwrap();
    // Two frames of interleaved little-endian 16-bit samples, and a stray byte.
    let packet = Packet::new_from_slice(0, 0, &[0x01, 0x00, 0xff, 0xff, 0x00, 0x80, 0xff, 0x7f, 0x12]);
    decoder.decode(&packet).unwrap();
    let buf = decoder.buffer();
    assert_eq!(buf.frames(), 2);
    assert_eq!(buf.chan(0), &[1 << 16, i32::MIN][..]);
    assert_eq!(buf.chan(1), &[-1 << 16, 0x7fff << 16][..]);
}

#[test]
fn pcm_decoder_expands_alaw_without_a_width() {
    let params = stereo_params(CodecType::PcmAlaw, None);
    let mut decoder = PcmDecoder::try_new(&params, &DecoderOptions::default()).unwrap();
    let packet = Packet::new_from_slice(0, 0, &[0xd5, 0x55]);
    decoder.decode(&packet).unwrap();
    let buf = decoder.buffer();
    assert_eq!(buf.frames(), 1);
    assert_eq!(buf.chan(0), &[8 << 16][..]);
    assert_eq!(buf.chan(1), &[-8 << 16][..]);
}

#[test]
fn pcm_decoder_needs_a_sample_width() {
    let params = stereo_params(CodecType::PcmS16le, None);
    let mut decoder = PcmDecoder::try_new(&params, &DecoderOptions::default()).unwrap();
    let packet = Packet::new_from_slice(0, 0, &[0, 0, 0, 0]);
    assert!(matches!(decoder.decode(&packet), Err(Error::DecodeError(_))));
}

#[test]
fn pcm_decoder_leaves_float_samples_unsupported() {
    let params = stereo_params(CodecType::PcmF32le, Some(32));
    let mut decoder = PcmDecoder::try_new(&params, &DecoderOptions::default()).unwrap();
    let packet = Packet::new_from_slice(0, 0, &[0; 8]);
    assert!(matches!(decoder.decode(&packet), Err(Error::Unsupported(_))));
}
