//! Codec identifiers and parameters, and the registry that picks a decoder for a codec.

use vstd::prelude::*;
use crate::audio::{Channels, Layout};
use crate::errors::{Error, unsupported_error};
use crate::sample::SampleFormat;
use crate::flac::decoder::{FlacDecoder, flac_new_outcome};
use crate::pcm::{PcmDecoder, pcm_new_outcome};

verus! {

/// A `CodecType` is a unique identifier used to identify a specific codec. `CodecType` is mainly
/// used for matching a format's stream to a specific `Decoder`.
#[derive(Copy, Clone, Debug, PartialEq, Eq, Structural, Hash)]
pub enum CodecType {
    /// Null decoder, simply discards all data.
    Null,
    /// PCM signed 32-bit little-endian interleaved
    PcmS32le,
    /// PCM signed 32-bit little-endian planar
    PcmS32lePlanar,
    /// PCM signed 32-bit big-endian interleaved
    PcmS32be,
    /// PCM signed 32-bit big-endian planar
    PcmS32bePlanar,
    /// PCM signed 24-bit little-endian interleaved
    PcmS24le,
    /// PCM signed 24-bit little-endian planar
    PcmS24lePlanar,
    /// PCM signed 24-bit big-endian interleaved
    PcmS24be,
    /// PCM signed 24-bit big-endian planar
    PcmS24bePlanar,
    /// PCM signed 16-bit little-endian interleaved
    PcmS16le,
    /// PCM signed 16-bit little-endian planar
    PcmS16lePlanar,
    /// PCM signed 16-bit big-endian interleaved
    PcmS16be,
    /// PCM signed 16-bit big-endian planar
    PcmS16bePlanar,
    /// PCM signed 8-bit interleaved
    PcmS8,
    /// PCM signed 8-bit planar
    PcmS8Planar,
    /// PCM unsigned 32-bit little-endian interleaved
    PcmU32le,
    /// PCM unsigned 32-bit little-endian planar
    PcmU32lePlanar,
    /// PCM unsigned 32-bit big-endian interleaved
    PcmU32be,
    /// PCM unsigned 32-bit big-endian planar
    PcmU32bePlanar,
    /// PCM unsigned 24-bit little-endian interleaved
    PcmU24le,
    /// PCM unsigned 24-bit little-endian planar
    PcmU24lePlanar,
    /// PCM unsigned 24-bit big-endian interleaved
    PcmU24be,
    /// PCM unsigned 24-bit big-endian planar
    PcmU24bePlanar,
    /// PCM unsigned 16-bit little-endian interleaved
    PcmU16le,
    /// PCM unsigned 16-bit little-endian planar
    PcmU16lePlanar,
    /// PCM unsigned 16-bit big-endian interleaved
    PcmU16be,
    /// PCM unsigned 16-bit big-endian planar
    PcmU16bePlanar,
    /// PCM unsigned 8-bit interleaved
    PcmU8,
    /// PCM unsigned 8-bit planar
    PcmU8Planar,
    /// PCM 32-bit little-endian floating point interleaved
    PcmF32le,
    /// PCM 32-bit little-endian floating point planar
    PcmF32lePlanar,
    /// PCM 32-bit big-endian floating point interleaved
    PcmF32be,
    /// PCM 32-bit big-endian floating point planar
    PcmF32bePlanar,
    /// PCM 64-bit little-endian floating point interleaved
    PcmF64le,
    /// PCM 64-bit little-endian floating point planar
    PcmF64lePlanar,
    /// PCM 64-bit big-endian floating point interleaved
    PcmF64be,
    /// PCM 64-bit big-endian floating point planar
    PcmF64bePlanar,
    /// PCM A-law
    PcmAlaw,
    /// PCM Mu-law
    PcmMulaw,
    /// Vorbis
    Vorbis,
    /// MPEG Layer 1 (MP1)
    Mp1,
    /// MPEG Layer 2 (MP2)
    Mp2,
    /// MPEG Layer 3 (MP3)
    Mp3,
    /// Advanced Audio Coding (AAC)
    Aac,
    /// Opus
    Opus,
    /// Musepack
    Musepack,
    /// Free Lossless Audio Codec (FLAC)
    Flac,
    /// WavPack
    Wavpack,
    /// Monkey's Audio (APE)
    MonkeysAudio,
    /// Apple Lossless Audio Codec (ALAC)
    Alac,
}

/// Null decoder, simply discards all data.
pub const CODEC_TYPE_NULL: CodecType = CodecType::Null;

/// PCM signed 32-bit little-endian interleaved
pub const CODEC_TYPE_PCM_S32LE: CodecType = CodecType::PcmS32le;

/// PCM signed 32-bit little-endian planar
pub const CODEC_TYPE_PCM_S32LE_PLANAR: CodecType = CodecType::PcmS32lePlanar;

/// PCM signed 32-bit big-endian interleaved
pub const CODEC_TYPE_PCM_S32BE: CodecType = CodecType::PcmS32be;

/// PCM signed 32-bit big-endian planar
pub const CODEC_TYPE_PCM_S32BE_PLANAR: CodecType = CodecType::PcmS32bePlanar;

/// PCM signed 24-bit little-endian interleaved
pub const CODEC_TYPE_PCM_S24LE: CodecType = CodecType::PcmS24le;

/// PCM signed 24-bit little-endian planar
pub const CODEC_TYPE_PCM_S24LE_PLANAR: CodecType = CodecType::PcmS24lePlanar;

/// PCM signed 24-bit big-endian interleaved
pub const CODEC_TYPE_PCM_S24BE: CodecType = CodecType::PcmS24be;

/// PCM signed 24-bit big-endian planar
pub const CODEC_TYPE_PCM_S24BE_PLANAR: CodecType = CodecType::PcmS24bePlanar;

/// PCM signed 16-bit little-endian interleaved
pub const CODEC_TYPE_PCM_S16LE: CodecType = CodecType::PcmS16le;

/// PCM signed 16-bit little-endian planar
pub const CODEC_TYPE_PCM_S16LE_PLANAR: CodecType = CodecType::PcmS16lePlanar;

/// PCM signed 16-bit big-endian interleaved
pub const CODEC_TYPE_PCM_S16BE: CodecType = CodecType::PcmS16be;

/// PCM signed 16-bit big-endian planar
pub const CODEC_TYPE_PCM_S16BE_PLANAR: CodecType = CodecType::PcmS16bePlanar;

/// PCM signed 8-bit interleaved
pub const CODEC_TYPE_PCM_S8: CodecType = CodecType::PcmS8;

/// PCM signed 8-bit planar
pub const CODEC_TYPE_PCM_S8_PLANAR: CodecType = CodecType::PcmS8Planar;

/// PCM unsigned 32-bit little-endian interleaved
pub const CODEC_TYPE_PCM_U32LE: CodecType = CodecType::PcmU32le;

/// PCM unsigned 32-bit little-endian planar
pub const CODEC_TYPE_PCM_U32LE_PLANAR: CodecType = CodecType::PcmU32lePlanar;

/// PCM unsigned 32-bit big-endian interleaved
pub const CODEC_TYPE_PCM_U32BE: CodecType = CodecType::PcmU32be;

/// PCM unsigned 32-bit big-endian planar
pub const CODEC_TYPE_PCM_U32BE_PLANAR: CodecType = CodecType::PcmU32bePlanar;

/// PCM unsigned 24-bit little-endian interleaved
pub const CODEC_TYPE_PCM_U24LE: CodecType = CodecType::PcmU24le;

/// PCM unsigned 24-bit little-endian planar
pub const CODEC_TYPE_PCM_U24LE_PLANAR: CodecType = CodecType::PcmU24lePlanar;

/// PCM unsigned 24-bit big-endian interleaved
pub const CODEC_TYPE_PCM_U24BE: CodecType = CodecType::PcmU24be;

/// PCM unsigned 24-bit big-endian planar
pub const CODEC_TYPE_PCM_U24BE_PLANAR: CodecType = CodecType::PcmU24bePlanar;

/// PCM unsigned 16-bit little-endian interleaved
pub const CODEC_TYPE_PCM_U16LE: CodecType = CodecType::PcmU16le;

/// PCM unsigned 16-bit little-endian planar
pub const CODEC_TYPE_PCM_U16LE_PLANAR: CodecType = CodecType::PcmU16lePlanar;

/// PCM unsigned 16-bit big-endian interleaved
pub const CODEC_TYPE_PCM_U16BE: CodecType = CodecType::PcmU16be;

/// PCM unsigned 16-bit big-endian planar
pub const CODEC_TYPE_PCM_U16BE_PLANAR: CodecType = CodecType::PcmU16bePlanar;

/// PCM unsigned 8-bit interleaved
pub const CODEC_TYPE_PCM_U8: CodecType = CodecType::PcmU8;

/// PCM unsigned 8-bit planar
pub const CODEC_TYPE_PCM_U8_PLANAR: CodecType = CodecType::PcmU8Planar;

/// PCM 32-bit little-endian floating point interleaved
pub const CODEC_TYPE_PCM_F32LE: CodecType = CodecType::PcmF32le;

/// PCM 32-bit little-endian floating point planar
pub const CODEC_TYPE_PCM_F32LE_PLANAR: CodecType = CodecType::PcmF32lePlanar;

/// PCM 32-bit big-endian floating point interleaved
pub const CODEC_TYPE_PCM_F32BE: CodecType = CodecType::PcmF32be;

/// PCM 32-bit big-endian floating point planar
pub const CODEC_TYPE_PCM_F32BE_PLANAR: CodecType = CodecType::PcmF32bePlanar;

/// PCM 64-bit little-endian floating point interleaved
pub const CODEC_TYPE_PCM_F64LE: CodecType = CodecType::PcmF64le;

/// PCM 64-bit little-endian floating point planar
pub const CODEC_TYPE_PCM_F64LE_PLANAR: CodecType = CodecType::PcmF64lePlanar;

/// PCM 64-bit big-endian floating point interleaved
pub const CODEC_TYPE_PCM_F64BE: CodecType = CodecType::PcmF64be;

/// PCM 64-bit big-endian floating point planar
pub const CODEC_TYPE_PCM_F64BE_PLANAR: CodecType = CodecType::PcmF64bePlanar;

/// PCM A-law
pub const CODEC_TYPE_PCM_ALAW: CodecType = CodecType::PcmAlaw;

/// PCM Mu-law
pub const CODEC_TYPE_PCM_MULAW: CodecType = CodecType::PcmMulaw;

/// Vorbis
pub const CODEC_TYPE_VORBIS: CodecType = CodecType::Vorbis;

/// MPEG Layer 1 (MP1)
pub const CODEC_TYPE_MP1: CodecType = CodecType::Mp1;

/// MPEG Layer 2 (MP2)
pub const CODEC_TYPE_MP2: CodecType = CodecType::Mp2;

/// MPEG Layer 3 (MP3)
pub const CODEC_TYPE_MP3: CodecType = CodecType::Mp3;

/// Advanced Audio Coding (AAC)
pub const CODEC_TYPE_AAC: CodecType = CodecType::Aac;

/// Opus
pub const CODEC_TYPE_OPUS: CodecType = CodecType::Opus;

/// Musepack
pub const CODEC_TYPE_MUSEPACK: CodecType = CodecType::Musepack;

/// Free Lossless Audio Codec (FLAC)
pub const CODEC_TYPE_FLAC: CodecType = CodecType::Flac;

/// WavPack
pub const CODEC_TYPE_WAVPACK: CodecType = CodecType::Wavpack;

/// Monkey's Audio (APE)
pub const CODEC_TYPE_MONKEYS_AUDIO: CodecType = CodecType::MonkeysAudio;

/// Apple Lossless Audio Codec (ALAC)
pub const CODEC_TYPE_ALAC: CodecType = CodecType::Alac;

/// The numeric identifier of a codec type.
pub open spec fn codec_id(codec: CodecType) -> u32 {
    match codec {
        CodecType::Null => 0x0,
        CodecType::PcmS32le => 0x100,
        CodecType::PcmS32lePlanar => 0x101,
        CodecType::PcmS32be => 0x102,
        CodecType::PcmS32bePlanar => 0x103,
        CodecType::PcmS24le => 0x104,
        CodecType::PcmS24lePlanar => 0x105,
        CodecType::PcmS24be => 0x106,
        CodecType::PcmS24bePlanar => 0x107,
        CodecType::PcmS16le => 0x108,
        CodecType::PcmS16lePlanar => 0x109,
        CodecType::PcmS16be => 0x10a,
        CodecType::PcmS16bePlanar => 0x10b,
        CodecType::PcmS8 => 0x10c,
        CodecType::PcmS8Planar => 0x10d,
        CodecType::PcmU32le => 0x10e,
        CodecType::PcmU32lePlanar => 0x10f,
        CodecType::PcmU32be => 0x110,
        CodecType::PcmU32bePlanar => 0x111,
        CodecType::PcmU24le => 0x112,
        CodecType::PcmU24lePlanar => 0x113,
        CodecType::PcmU24be => 0x114,
        CodecType::PcmU24bePlanar => 0x115,
        CodecType::PcmU16le => 0x116,
        CodecType::PcmU16lePlanar => 0x117,
        CodecType::PcmU16be => 0x118,
        CodecType::PcmU16bePlanar => 0x119,
        CodecType::PcmU8 => 0x11a,
        CodecType::PcmU8Planar => 0x11b,
        CodecType::PcmF32le => 0x11c,
        CodecType::PcmF32lePlanar => 0x11d,
        CodecType::PcmF32be => 0x11e,
        CodecType::PcmF32bePlanar => 0x11f,
        CodecType::PcmF64le => 0x120,
        CodecType::PcmF64lePlanar => 0x121,
        CodecType::PcmF64be => 0x122,
        CodecType::PcmF64bePlanar => 0x123,
        CodecType::PcmAlaw => 0x124,
        CodecType::PcmMulaw => 0x125,
        CodecType::Vorbis => 0x1000,
        CodecType::Mp1 => 0x1001,
        CodecType::Mp2 => 0x1002,
        CodecType::Mp3 => 0x1003,
        CodecType::Aac => 0x1004,
        CodecType::Opus => 0x1005,
        CodecType::Musepack => 0x1006,
        CodecType::Flac => 0x2000,
        CodecType::Wavpack => 0x2001,
        CodecType::MonkeysAudio => 0x2002,
        CodecType::Alac => 0x2003,
    }
}

impl CodecType {
    /// Returns the numeric identifier of the codec type.
    pub fn id(&self) -> (r: u32)
        ensures
            r == codec_id(*self),
    {
        match self {
            CodecType::Null => 0x0,
            CodecType::PcmS32le => 0x100,
            CodecType::PcmS32lePlanar => 0x101,
            CodecType::PcmS32be => 0x102,
            CodecType::PcmS32bePlanar => 0x103,
            CodecType::PcmS24le => 0x104,
            CodecType::PcmS24lePlanar => 0x105,
            CodecType::PcmS24be => 0x106,
            CodecType::PcmS24bePlanar => 0x107,
            CodecType::PcmS16le => 0x108,
            CodecType::PcmS16lePlanar => 0x109,
            CodecType::PcmS16be => 0x10a,
            CodecType::PcmS16bePlanar => 0x10b,
            CodecType::PcmS8 => 0x10c,
            CodecType::PcmS8Planar => 0x10d,
            CodecType::PcmU32le => 0x10e,
            CodecType::PcmU32lePlanar => 0x10f,
            CodecType::PcmU32be => 0x110,
            CodecType::PcmU32bePlanar => 0x111,
            CodecType::PcmU24le => 0x112,
            CodecType::PcmU24lePlanar => 0x113,
            CodecType::PcmU24be => 0x114,
            CodecType::PcmU24bePlanar => 0x115,
            CodecType::PcmU16le => 0x116,
            CodecType::PcmU16lePlanar => 0x117,
            CodecType::PcmU16be => 0x118,
            CodecType::PcmU16bePlanar => 0x119,
            CodecType::PcmU8 => 0x11a,
            CodecType::PcmU8Planar => 0x11b,
            CodecType::PcmF32le => 0x11c,
            CodecType::PcmF32lePlanar => 0x11d,
            CodecType::PcmF32be => 0x11e,
            CodecType::PcmF32bePlanar => 0x11f,
            CodecType::PcmF64le => 0x120,
            CodecType::PcmF64lePlanar => 0x121,
            CodecType::PcmF64be => 0x122,
            CodecType::PcmF64bePlanar => 0x123,
            CodecType::PcmAlaw => 0x124,
            CodecType::PcmMulaw => 0x125,
            CodecType::Vorbis => 0x1000,
            CodecType::Mp1 => 0x1001,
            CodecType::Mp2 => 0x1002,
            CodecType::Mp3 => 0x1003,
            CodecType::Aac => 0x1004,
            CodecType::Opus => 0x1005,
            CodecType::Musepack => 0x1006,
            CodecType::Flac => 0x2000,
            CodecType::Wavpack => 0x2001,
            CodecType::MonkeysAudio => 0x2002,
            CodecType::Alac => 0x2003,
        }
    }
}

/// Codec parameters stored in a container format's headers and metadata may be passed to a codec
/// using the `CodecParameters` structure.
#[derive(Copy, Clone, Debug, PartialEq, Eq, Structural)]
pub struct CodecParameters {
    /// The codec type.
    pub codec: CodecType,
    /// The sample rate of the audio in Hz.
    pub sample_rate: Option<u32>,
    /// The length of the encoded stream in number of frames.
    pub n_frames: Option<u64>,
    /// The sample format of an audio sample.
    pub sample_format: Option<SampleFormat>,
    /// The number of bits per one decoded audio sample.
    pub bits_per_sample: Option<u32>,
    /// The number of bits per one encoded audio sample.
    pub bits_per_coded_sample: Option<u32>,
    /// A bitmask of all channels in the stream.
    pub channels: Option<Channels>,
    /// The channel layout.
    pub channel_layout: Option<Layout>,
    /// The number of leading frames inserted by the encoder for padding that should be skipped
    /// during playback.
    pub leading_padding: Option<u32>,
    /// The number of trailing frames inserted by the encoder for padding that should be skipped
    /// during playback.
    pub trailing_padding: Option<u32>,
    /// The maximum number of frames a packet will contain.
    pub max_frames_per_packet: Option<u64>,
    /// The demuxer guarantees packet data integrity.
    pub packet_data_integrity: bool,
}

impl CodecParameters {
    /// Parameters that state nothing: the null codec, and every optional field unset.
    pub fn new() -> (r: CodecParameters)
        ensures
            r == (CodecParameters {
                codec: CodecType::Null,
                sample_rate: None,
                n_frames: None,
                sample_format: None,
                bits_per_sample: None,
                bits_per_coded_sample: None,
                channels: None,
                channel_layout: None,
                leading_padding: None,
                trailing_padding: None,
                max_frames_per_packet: None,
                packet_data_integrity: false,
            }),
    {
        CodecParameters {
            codec: CODEC_TYPE_NULL,
            sample_rate: None,
            n_frames: None,
            sample_format: None,
            bits_per_sample: None,
            bits_per_coded_sample: None,
            channels: None,
            channel_layout: None,
            leading_padding: None,
            trailing_padding: None,
            max_frames_per_packet: None,
            packet_data_integrity: false,
        }
    }

    pub fn for_codec(&mut self, codec: CodecType) -> (r: &mut Self)
        ensures
            *r == (CodecParameters { codec, ..*old(self) }),
            *final(self) == *final(r),
    {
        self.codec = codec;
        self
    }

    pub fn with_sample_rate(&mut self, sample_rate: u32) -> (r: &mut Self)
        ensures
            *r == (CodecParameters { sample_rate: Some(sample_rate), ..*old(self) }),
            *final(self) == *final(r),
    {
        self.sample_rate = Some(sample_rate);
        self
    }

    pub fn with_n_frames(&mut self, n_frames: u64) -> (r: &mut Self)
        ensures
            *r == (CodecParameters { n_frames: Some(n_frames), ..*old(self) }),
            *final(self) == *final(r),
    {
        self.n_frames = Some(n_frames);
        self
    }

    pub fn with_sample_format(&mut self, sample_format: SampleFormat) -> (r: &mut Self)
        ensures
            *r == (CodecParameters { sample_format: Some(sample_format), ..*old(self) }),
            *final(self) == *final(r),
    {
        self.sample_format = Some(sample_format);
        self
    }

    pub fn with_bits_per_sample(&mut self, bits_per_sample: u32) -> (r: &mut Self)
        ensures
            *r == (CodecParameters { bits_per_sample: Some(bits_per_sample), ..*old(self) }),
            *final(self) == *final(r),
    {
        self.bits_per_sample = Some(bits_per_sample);
        self
    }

    pub fn with_bits_per_coded_sample(&mut self, bits_per_coded_sample: u32) -> (r: &mut Self)
        ensures
            *r == (CodecParameters {
                bits_per_coded_sample: Some(bits_per_coded_sample),
                ..*old(self)
            }),
            *final(self) == *final(r),
    {
        self.bits_per_coded_sample = Some(bits_per_coded_sample);
        self
    }

    pub fn with_channels(&mut self, channels: Channels) -> (r: &mut Self)
        ensures
            *r == (CodecParameters { channels: Some(channels), ..*old(self) }),
            *final(self) == *final(r),
    {
        self.channels = Some(channels);
        self
    }

    pub fn with_channel_layout(&mut self, channel_layout: Layout) -> (r: &mut Self)
        ensures
            *r == (CodecParameters { channel_layout: Some(channel_layout), ..*old(self) }),
            *final(self) == *final(r),
    {
        self.channel_layout = Some(channel_layout);
        self
    }

    pub fn with_leading_padding(&mut self, padding: u32) -> (r: &mut Self)
        ensures
            *r == (CodecParameters { leading_padding: Some(padding), ..*old(self) }),
            *final(self) == *final(r),
    {
        self.leading_padding = Some(padding);
        self
    }

    pub fn with_trailing_padding(&mut self, padding: u32) -> (r: &mut Self)
        ensures
            *r == (CodecParameters { trailing_padding: Some(padding), ..*old(self) }),
            *final(self) == *final(r),
    {
        self.trailing_padding = Some(padding);
        self
    }

    pub fn with_max_frames_per_packet(&mut self, len: u64) -> (r: &mut Self)
        ensures
            *r == (CodecParameters { max_frames_per_packet: Some(len), ..*old(self) }),
            *final(self) == *final(r),
    {
        self.max_frames_per_packet = Some(len);
        self
    }

    pub fn with_packet_data_integrity(&mut self, integrity: bool) -> (r: &mut Self)
        ensures
            *r == (CodecParameters { packet_data_integrity: integrity, ..*old(self) }),
            *final(self) == *final(r),
    {
        self.packet_data_integrity = integrity;
        self
    }
}

/// `DecoderOptions` is a common set of options that all decoders use.
#[derive(Copy, Clone, Debug, PartialEq, Eq, Structural)]
pub struct DecoderOptions {
    /// The decoded audio should be verified if possible during the decode process.
    pub verify: bool,
}

impl Default for DecoderOptions {
    fn default() -> (r: Self)
        ensures
            r.verify == false,
    {
        DecoderOptions { verify: false }
    }
}

/// A `CodecDescriptor` stores a description of a single logical codec: its `CodecType`, a short
/// name, and a long name.
#[derive(Copy, Clone, Debug)]
pub struct CodecDescriptor {
    /// The `CodecType` identifier.
    pub codec: CodecType,
    /// A short ASCII-only string identifying the codec.
    pub short_name: &'static str,
    /// A longer, more descriptive, string identifying the codec.
    pub long_name: &'static str,
    /// The decoder that instantiates the codec.
    pub inst: DecoderKind,
}

/// The decoders of this library, by which a codec is instantiated.
#[derive(Copy, Clone, Debug, PartialEq, Eq, Structural)]
pub enum DecoderKind {
    /// The FLAC decoder.
    Flac,
    /// The PCM decoder.
    Pcm,
}

/// A decoder instantiated by a `CodecRegistry`.
pub enum AnyDecoder {
    /// A FLAC decoder.
    Flac(FlacDecoder),
    /// A PCM decoder.
    Pcm(PcmDecoder),
}

/// Whether `r` is what the decoder `kind` gives when instantiated with `params` and `options`.
pub open spec fn made_by(
    kind: DecoderKind,
    params: CodecParameters,
    options: DecoderOptions,
    r: Result<AnyDecoder, Error>,
) -> bool {
    match kind {
        DecoderKind::Flac => match r {
            Ok(AnyDecoder::Flac(d)) => flac_new_outcome(params, options, Ok(d)),
            Ok(_) => false,
            Err(e) => flac_new_outcome(params, options, Err(e)),
        },
        DecoderKind::Pcm => match r {
            Ok(AnyDecoder::Pcm(d)) => pcm_new_outcome(params, options, Ok(d)),
            Ok(_) => false,
            Err(e) => pcm_new_outcome(params, options, Err(e)),
        },
    }
}

/// A `Decoder` implements a codec's decode algorithm.
pub trait Decoder: Sized {
    /// The codecs the decoder supports.
    spec fn supported_codecs_spec() -> Seq<CodecDescriptor>;

    /// Attempts to instantiates a `Decoder` using the provided `CodecParameters`.
    fn try_new(params: &CodecParameters, options: &DecoderOptions) -> Result<Self, Error>;

    /// Gets a list of codec descriptors for the codecs supported by this Decoder.
    fn supported_codecs() -> (r: Vec<CodecDescriptor>)
        ensures
            r@ == Self::supported_codecs_spec(),
    ;

    /// Gets a reference to parameters the `Decoder` was instantiated with.
    fn codec_params(&self) -> &CodecParameters;

    /// Closes a decoder.
    fn close(&mut self);
}

/// The descriptors registered for one codec, best tier first, with their tiers.
pub type Registered = Seq<(CodecDescriptor, u32)>;

/// The index at which a descriptor of the given tier is inserted: before the first entry of a
/// lower tier, or at the end.
pub open spec fn insert_pos(entries: Registered, tier: u32) -> int
    decreases entries.len(),
{
    if entries.len() == 0 {
        0
    } else if entries[0].1 < tier {
        0
    } else {
        1 + insert_pos(entries.drop_first(), tier)
    }
}

/// The entries of a codec after registering `descriptor` at `tier`.
pub open spec fn register_entry(entries: Registered, descriptor: CodecDescriptor, tier: u32) -> Registered {
    entries.insert(insert_pos(entries, tier), (descriptor, tier))
}

/// Entries are ordered by tier, highest first.
pub open spec fn tiers_descending(entries: Registered) -> bool {
    forall|i: int, j: int| 0 <= i < j < entries.len() ==> entries[i].1 >= entries[j].1
}

/// No codec occurs twice.
pub open spec fn distinct_codecs(s: Seq<(CodecType, Registered)>) -> bool {
    forall|i: int, j: int| 0 <= i < j < s.len() ==> s[i].0 != s[j].0
}

/// The map from each codec to the descriptors registered for it.
pub open spec fn registry_map(s: Seq<(CodecType, Registered)>) -> Map<CodecType, Registered> {
    Map::new(
        |c: CodecType| exists|i: int| 0 <= i < s.len() && s[i].0 == c,
        |c: CodecType| s[choose|i: int| 0 <= i < s.len() && s[i].0 == c].1,
    )
}

/// Each codec is found at its own index.
proof fn lemma_registry_lookup(s: Seq<(CodecType, Registered)>, i: int)
    requires
        distinct_codecs(s),
        0 <= i < s.len(),
    ensures
        registry_map(s).contains_key(s[i].0),
        registry_map(s)[s[i].0] == s[i].1,
{
    let c = s[i].0;
    assert(0 <= i < s.len() && s[i].0 == c);
    let j = choose|j: int| 0 <= j < s.len() && s[j].0 == c;
    assert(j == i);
}

/// Replacing the descriptors of the codec at index `i`.
proof fn lemma_registry_update(s: Seq<(CodecType, Registered)>, i: int, v: Registered)
    requires
        distinct_codecs(s),
        0 <= i < s.len(),
    ensures
        distinct_codecs(s.update(i, (s[i].0, v))),
        registry_map(s.update(i, (s[i].0, v))) == registry_map(s).insert(s[i].0, v),
{
    let t = s.update(i, (s[i].0, v));
    assert(distinct_codecs(t));
    let m1 = registry_map(t);
    let m2 = registry_map(s).insert(s[i].0, v);
    assert forall|c: CodecType| m1.contains_key(c) <==> m2.contains_key(c) by {
        if c == s[i].0 {
            assert(t[i].0 == c);
        }
        if m2.contains_key(c) && c != s[i].0 {
            let j = choose|j: int| 0 <= j < s.len() && s[j].0 == c;
            assert(t[j].0 == c);
        }
        if m1.contains_key(c) {
            let j = choose|j: int| 0 <= j < t.len() && t[j].0 == c;
            assert(s[j].0 == c);
        }
    }
    assert forall|c: CodecType| m1.contains_key(c) implies m1[c] == m2[c] by {
        let j = choose|j: int| 0 <= j < t.len() && t[j].0 == c;
        lemma_registry_lookup(t, j);
        if c != s[i].0 {
            assert(s[j].0 == c);
            lemma_registry_lookup(s, j);
        }
    }
    assert(m1 =~= m2);
}

/// Adding the descriptors of a codec that had none.
proof fn lemma_registry_push(s: Seq<(CodecType, Registered)>, c: CodecType, v: Registered)
    requires
        distinct_codecs(s),
        !registry_map(s).contains_key(c),
    ensures
        distinct_codecs(s.push((c, v))),
        registry_map(s.push((c, v))) == registry_map(s).insert(c, v),
{
    let t = s.push((c, v));
    assert forall|i: int, j: int| 0 <= i < j < t.len() implies t[i].0 != t[j].0 by {
        if j == s.len() {
            assert(!(0 <= i < s.len() && s[i].0 == c));
        }
    }
    let m1 = registry_map(t);
    let m2 = registry_map(s).insert(c, v);
    assert forall|k: CodecType| m1.contains_key(k) <==> m2.contains_key(k) by {
        if m2.contains_key(k) && k != c {
            let j = choose|j: int| 0 <= j < s.len() && s[j].0 == k;
            assert(t[j].0 == k);
        }
        if k == c {
            assert(t[s.len() as int].0 == c);
        }
    }
    assert forall|k: CodecType| m1.contains_key(k) implies m1[k] == m2[k] by {
        let j = choose|j: int| 0 <= j < t.len() && t[j].0 == k;
        lemma_registry_lookup(t, j);
        if k != c {
            assert(s[j].0 == k);
            lemma_registry_lookup(s, j);
        }
    }
    assert(m1 =~= m2);
}

/// A `CodecRegistry` allows the registration of codecs, and instantiates the best registered
/// decoder for the codec of a `CodecParameters`.
pub struct CodecRegistry {
    codecs: Vec<(CodecType, Vec<(CodecDescriptor, u32)>)>,
}

impl CodecRegistry {
    /// The codecs with the descriptors registered for them.
    pub closed spec fn model(&self) -> Seq<(CodecType, Registered)> {
        self.codecs@.map_values(|e: (CodecType, Vec<(CodecDescriptor, u32)>)| (e.0, e.1@))
    }

    /// The codecs are distinct and every codec has at least one descriptor.
    pub closed spec fn wf(&self) -> bool {
        &&& distinct_codecs(self.model())
        &&& forall|i: int| 0 <= i < self.codecs@.len() ==> self.codecs@[i].1@.len() > 0
    }

    /// The descriptors registered for each codec.
    pub closed spec fn view(&self) -> Map<CodecType, Registered> {
        registry_map(self.model())
    }

    /// Instantiate a new `CodecRegistry`.
    pub fn new() -> (r: Self)
        ensures
            r.wf(),
            r@ == Map::<CodecType, Registered>::empty(),
    {
        let r = CodecRegistry { codecs: Vec::new() };
        assert(r@ =~= Map::<CodecType, Registered>::empty());
        r
    }

    /// Returns the index of the codec's entry, if it has one.
    fn find(&self, codec: CodecType) -> (r: Option<usize>)
        requires
            self.wf(),
        ensures
            r matches Some(i) ==> i < self.codecs@.len() && self.codecs@[i as int].0 == codec,
            r is None ==> !self@.contains_key(codec),
    {
        let mut i: usize = 0;
        while i < self.codecs.len()
            invariant
                i <= self.codecs@.len(),
                forall|k: int| 0 <= k < i ==> self.codecs@[k].0 != codec,
            decreases self.codecs@.len() - i,
        {
            if self.codecs[i].0 == codec {
                return Some(i);
            }
            i = i + 1;
        }
        proof {
            if self@.contains_key(codec) {
                let j = choose|j: int| 0 <= j < self.model().len() && self.model()[j].0 == codec;
                assert(self.codecs@[j].0 == codec);
            }
        }
        None
    }

    /// Register a single codec at the provided tier.
    pub fn register(&mut self, descriptor: &CodecDescriptor, tier: u32)
        requires
            old(self).wf(),
        ensures
            final(self).wf(),
            final(self)@ == old(self)@.insert(
                descriptor.codec,
                register_entry(
                    if old(self)@.contains_key(descriptor.codec) {
                        old(self)@[descriptor.codec]
                    } else {
                        Seq::empty()
                    },
                    *descriptor,
                    tier,
                ),
            ),
    {
        match self.find(descriptor.codec) {
            Some(i) => {
                let ghost before = self.model();
                let mut entry = self.codecs.remove(i);
                let pos = position_for(&entry.1, tier);
                let ghost old_entries = entry.1@;
                entry.1.insert(pos, (*descriptor, tier));
                self.codecs.insert(i, entry);
                proof {
                    lemma_registry_lookup(before, i as int);
                    lemma_registry_update(before, i as int, entry.1@);
                    assert(self.model() =~= before.update(i as int, (before[i as int].0, entry.1@)));
                }
            },
            None => {
                let mut entries: Vec<(CodecDescriptor, u32)> = Vec::new();
                entries.push((*descriptor, tier));
                let ghost before = self.model();
                self.codecs.push((descriptor.codec, entries));
                proof {
                    assert(insert_pos(Seq::<(CodecDescriptor, u32)>::empty(), tier) == 0);
                    assert(entries@ =~= register_entry(Seq::empty(), *descriptor, tier));
                    lemma_registry_push(before, descriptor.codec, entries@);
                    assert(self.model() =~= before.push((descriptor.codec, entries@)));
                }
            },
        }
    }

    /// Registers all codecs supported by the Decoder at the provided tier.
    pub fn register_all<D: Decoder>(&mut self, tier: u32)
        requires
            old(self).wf(),
        ensures
            final(self).wf(),
            final(self)@ == register_all_spec(old(self)@, D::supported_codecs_spec(), tier),
    {
        let descriptors = D::supported_codecs();
        let mut i: usize = 0;
        proof {
            assert(descriptors@.take(0) =~= Seq::<CodecDescriptor>::empty());
        }
        while i < descriptors.len()
            invariant
                self.wf(),
                i <= descriptors@.len(),
                descriptors@ == D::supported_codecs_spec(),
                self@ == register_all_spec(old(self)@, descriptors@.take(i as int), tier),
            decreases descriptors@.len() - i,
        {
            self.register(&descriptors[i], tier);
            proof {
                assert(descriptors@.take(i + 1).drop_last() =~= descriptors@.take(i as int));
            }
            i = i + 1;
        }
        assert(descriptors@.take(i as int) =~= descriptors@);
    }

    /// Searches the registry for a decoder that supports the codec of the parameters: the one
    /// registered at the best tier, the earliest registered among equals. It is instantiated
    /// with the parameters and options, and its result is returned. Fails with `Unsupported` when
    /// no decoder was registered for the codec.
    pub fn make(&self, params: &CodecParameters, options: &DecoderOptions) -> (r: Result<
        AnyDecoder,
        Error,
    >)
        requires
            self.wf(),
        ensures
            self@.contains_key(params.codec) ==> made_by(
                self@[params.codec][0].0.inst,
                *params,
                *options,
                r,
            ),
            !self@.contains_key(params.codec) ==> r == Err::<AnyDecoder, Error>(
                Error::Unsupported("unsupported codec"),
            ),
    {
        match self.find(params.codec) {
            Some(i) => {
                proof {
                    lemma_registry_lookup(self.model(), i as int);
                }
                match self.codecs[i].1[0].0.inst {
                    DecoderKind::Flac => match FlacDecoder::try_new(params, options) {
                        Ok(d) => Ok(AnyDecoder::Flac(d)),
                        Err(e) => Err(e),
                    },
                    DecoderKind::Pcm => match PcmDecoder::try_new(params, options) {
                        Ok(d) => Ok(AnyDecoder::Pcm(d)),
                        Err(e) => Err(e),
                    },
                }
            },
            None => unsupported_error("unsupported codec"),
        }
    }
}

/// The registry after registering each of `descriptors` at `tier`, in order.
pub open spec fn register_all_spec(
    registry: Map<CodecType, Registered>,
    descriptors: Seq<CodecDescriptor>,
    tier: u32,
) -> Map<CodecType, Registered>
    decreases descriptors.len(),
{
    if descriptors.len() == 0 {
        registry
    } else {
        let prev = register_all_spec(registry, descriptors.drop_last(), tier);
        let d = descriptors.last();
        prev.insert(
            d.codec,
            register_entry(
                if prev.contains_key(d.codec) {
                    prev[d.codec]
                } else {
                    Seq::empty()
                },
                d,
                tier,
            ),
        )
    }
}

/// The index before the first entry of a lower tier than `tier`, or the number of entries.
fn position_for(entries: &Vec<(CodecDescriptor, u32)>, tier: u32) -> (r: usize)
    ensures
        r == insert_pos(entries@, tier),
        r <= entries@.len(),
{
    let mut i: usize = 0;
    assert(entries@.skip(0) =~= entries@);
    while i < entries.len()
        invariant
            i <= entries@.len(),
            insert_pos(entries@, tier) == i + insert_pos(entries@.skip(i as int), tier),
        decreases entries@.len() - i,
    {
        if entries[i].1 < tier {
            return i;
        }
        proof {
            assert(entries@.skip(i as int).drop_first() =~= entries@.skip(i + 1));
        }
        i = i + 1;
    }
    i
}

/// Registering keeps a codec's descriptors ordered by tier, best first.
pub proof fn lemma_register_keeps_order(entries: Registered, descriptor: CodecDescriptor, tier: u32)
    requires
        tiers_descending(entries),
    ensures
        tiers_descending(register_entry(entries, descriptor, tier)),
        register_entry(entries, descriptor, tier).len() == entries.len() + 1,
    decreases entries.len(),
{
    lemma_insert_pos(entries, tier);
}

/// The insertion position lies within the entries: every entry before it has a tier at least
/// `tier`, and the entry at it, if any, a lower tier.
pub proof fn lemma_insert_pos(entries: Registered, tier: u32)
    ensures
        0 <= insert_pos(entries, tier) <= entries.len(),
        forall|i: int| 0 <= i < insert_pos(entries, tier) ==> entries[i].1 >= tier,
        insert_pos(entries, tier) < entries.len() ==> entries[insert_pos(entries, tier)].1 < tier,
    decreases entries.len(),
{
    if entries.len() > 0 && entries[0].1 >= tier {
        let rest = entries.drop_first();
        lemma_insert_pos(rest, tier);
        assert forall|i: int| 0 <= i < insert_pos(entries, tier) implies entries[i].1 >= tier by {
            if i > 0 {
                assert(entries[i] == rest[i - 1]);
            }
        }
    }
}

} // verus!
