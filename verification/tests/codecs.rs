use sonata::audio::Channels;
use sonata::codecs::{
    AnyDecoder, CodecDescriptor, CodecParameters, CodecRegistry, CodecType, DecoderKind,
    DecoderOptions, CODEC_TYPE_FLAC,
};
use sonata::errors::Error;
use sonata::flac::decoder::FlacDecoder;
use sonata::pcm::PcmDecoder;

fn full_params(codec: CodecType) -> CodecParameters {
    let mut params = CodecParameters::new();
    params.for_codec(codec);
    params.with_sample_rate(44100);
    params.with_max_frames_per_packet(1152);
    params.with_channels(Channels::front_left() | Channels::front_right());
    params
}

#[test]
fn make_fails_for_an_unregistered_codec() {
    let registry = CodecRegistry::new();
    let r = registry.make(&full_params(CODEC_TYPE_FLAC), &DecoderOptions::default());
    assert_eq!(r.err(), Some(Error::Unsupported("unsupported codec")));
}

#[test]
fn make_instantiates_the_registered_decoder() {
    let mut registry = CodecRegistry::new();
    registry.register_all::<FlacDecoder>(0);
    registry.register_all::<PcmDecoder>(0);
    let flac = registry.make(&full_params(CODEC_TYPE_FLAC), &DecoderOptions::default());
    assert!(matches!(flac, Ok(AnyDecoder::Flac(_))));
    let pcm = registry.make(&full_params(CodecType::PcmS16le), &DecoderOptions::default());
    assert!(matches!(pcm, Ok(AnyDecoder::Pcm(_))));
}

#[test]
fn make_returns_the_constructors_error() {
    let mut registry = CodecRegistry::new();
    registry.register_all::<FlacDecoder>(0);
    let mut params = CodecParameters::new();
    params.for_codec(CODEC_TYPE_FLAC);
    let r = registry.make(&params, &DecoderOptions::default());
    assert_eq!(r.err(), Some(Error::Unsupported("Variable frames per packet are unsupported.")));
}

#[test]
fn make_picks_the_higher_tier_then_the_earlier_registration() {
    let as_pcm = CodecDescriptor {
        codec: CODEC_TYPE_FLAC,
        short_name: "flac-by-pcm",
        long_name: "FLAC handed to the PCM decoder",
        inst: DecoderKind::Pcm,
    };
    let as_flac = CodecDescriptor {
        codec: CODEC_TYPE_FLAC,
        short_name: "flac",
        long_name: "Free Lossless Audio Codec",
        inst: DecoderKind::Flac,
    };
    let params = full_params(CODEC_TYPE_FLAC);
    let options = DecoderOptions::default();

    let mut registry = CodecRegistry::new();
    registry.register(&as_pcm, 1);
    registry.register(&as_flac, 3);
    assert!(matches!(registry.make(&params, &options), Ok(AnyDecoder::Flac(_))));
    // An equal tier registered later ranks after the earlier one.
    registry.register(&as_pcm, 3);
    assert!(matches!(registry.make(&params, &options), Ok(AnyDecoder::Flac(_))));

    let mut other = CodecRegistry::new();
    other.register(&as_flac, 1);
    other.register(&as_pcm, 2);
    assert!(matches!(other.make(&params, &options), Ok(AnyDecoder::Pcm(_))));
    // Other codecs are not affected.
    let r = other.make(&full_params(CodecType::PcmS16le), &options);
    assert_eq!(r.err(), Some(Error::Unsupported("unsupported codec")));
}

#[test]
fn default_registry_makes_flac_and_pcm_decoders() {
    let registry = sonata::defaults::get_codecs();
    let options = DecoderOptions::default();
    assert!(matches!(registry.make(&full_params(CODEC_TYPE_FLAC), &options), Ok(AnyDecoder::Flac(_))));
    assert!(matches!(registry.make(&full_params(CodecType::PcmS24be), &options), Ok(AnyDecoder::Pcm(_))));
}
