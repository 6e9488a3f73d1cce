//! MPEG audio frame headers.

use vstd::prelude::*;
use crate::audio::{Layout, SignalSpec, layout_mask};
use crate::errors::{Error, decode_error, unsupported_error};
use crate::io::{BufStream, eof};

verus! {

/// The MPEG audio version.
#[derive(Copy, Clone, Debug, PartialEq, Eq, Structural)]
pub enum MpegVersion {
    /// Version 2.5
    Mpeg2p5,
    /// Version 2
    Mpeg2,
    /// Version 1
    Mpeg1,
}

/// The MPEG audio layer.
#[derive(Copy, Clone, Debug, PartialEq, Eq, Structural)]
pub enum MpegLayer {
    /// Layer 1
    Layer1,
    /// Layer 2
    Layer2,
    /// Layer 3
    Layer3,
}

/// For Joint Stereo mode, the mode extension describes the features and parameters of the Joint
/// Stereo encoding.
#[derive(Copy, Clone, Debug, PartialEq, Eq, Structural)]
pub enum Mode {
    /// Joint Stereo in layer 3 may use both Mid-Side and Intensity encoding.
    Layer3 { mid_side: bool, intensity: bool },
    /// Joint Stereo in layers 1 and 2 may only use Intensity encoding on a set of bands. The range
    /// of bands is [bound..32].
    Intensity { bound: u32 },
}

/// The channel mode.
#[derive(Copy, Clone, Debug, PartialEq, Eq, Structural)]
pub enum Channels {
    /// Single mono audio channel.
    Mono,
    /// Dual mono audio channels.
    DualMono,
    /// Stereo channels.
    Stereo,
    /// Joint Stereo encoded channels (decodes to Stereo).
    JointStereo(Mode),
}

impl Channels {
    /// Gets the number of channels.
    pub fn count(self) -> (r: usize)
        ensures
            r == (if self is Mono { 1usize } else { 2usize }),
    {
        match self {
            Channels::Mono => 1,
            _ => 2,
        }
    }
}

/// The emphasis applied during encoding.
#[derive(Copy, Clone, Debug, PartialEq, Eq, Structural)]
pub enum Emphasis {
    /// No emphasis
    NoEmphasis,
    /// 50/15us
    Fifty15,
    /// CCIT J.17
    CcitJ17,
}

/// A MPEG 1, 2, or 2.5 audio frame header.
#[derive(Copy, Clone, Debug, PartialEq, Eq, Structural)]
pub struct FrameHeader {
    pub version: MpegVersion,
    pub layer: MpegLayer,
    pub bitrate: u32,
    pub sample_rate: u32,
    pub sample_rate_idx: usize,
    pub channels: Channels,
    pub emphasis: Emphasis,
    pub is_copyrighted: bool,
    pub is_original: bool,
    pub has_padding: bool,
    pub crc: Option<u16>,
    pub frame_size: usize,
}

impl FrameHeader {
    /// Returns true if this a MPEG1 frame, false otherwise.
    pub fn is_mpeg1(&self) -> (r: bool)
        ensures
            r == (self.version == MpegVersion::Mpeg1),
    {
        match self.version {
            MpegVersion::Mpeg1 => true,
            _ => false,
        }
    }

    /// Returns true if this a MPEG2.5 frame, false otherwise.
    pub fn is_mpeg2p5(&self) -> (r: bool)
        ensures
            r == (self.version == MpegVersion::Mpeg2p5),
    {
        match self.version {
            MpegVersion::Mpeg2p5 => true,
            _ => false,
        }
    }

    /// Returns a signal specification for the frame.
    pub fn spec(&self) -> (r: SignalSpec)
        ensures
            r.rate == self.sample_rate,
            r.channels.mask() == layout_mask(
                if self.channels is Mono {
                    Layout::Mono
                } else {
                    Layout::Stereo
                },
            ),
    {
        let layout = match self.n_channels() {
            1 => Layout::Mono,
            _ => Layout::Stereo,
        };
        SignalSpec::new_with_layout(self.sample_rate, layout)
    }

    /// Returns the number of granules in the frame.
    pub fn n_granules(&self) -> (r: usize)
        ensures
            r == (if self.version == MpegVersion::Mpeg1 { 2usize } else { 1usize }),
    {
        match self.version {
            MpegVersion::Mpeg1 => 2,
            _ => 1,
        }
    }

    /// Returns the number of channels per granule.
    pub fn n_channels(&self) -> (r: usize)
        ensures
            r == (if self.channels is Mono { 1usize } else { 2usize }),
    {
        self.channels.count()
    }

    /// Returns true if Intensity Stereo encoding is used, false otherwise.
    pub fn is_intensity_stereo(&self) -> (r: bool)
        ensures
            r == match self.channels {
                Channels::JointStereo(Mode::Intensity { .. }) => true,
                Channels::JointStereo(Mode::Layer3 { intensity, .. }) => intensity,
                _ => false,
            },
    {
        match self.channels {
            Channels::JointStereo(Mode::Intensity { .. }) => true,
            Channels::JointStereo(Mode::Layer3 { intensity, .. }) => intensity,
            _ => false,
        }
    }
}

/// The bit-rate of index `idx` (1 to 14) for MPEG version 1 layer 1.
pub open spec fn bit_rate_mpeg1_l1(idx: u32) -> u32 {
    match idx {
        1 => 32_000,
        2 => 64_000,
        3 => 96_000,
        4 => 128_000,
        5 => 160_000,
        6 => 192_000,
        7 => 224_000,
        8 => 256_000,
        9 => 288_000,
        10 => 320_000,
        11 => 352_000,
        12 => 384_000,
        13 => 416_000,
        _ => 448_000,
    }
}

fn bit_rates_mpeg1_l1(idx: u32) -> (r: u32)
    requires
        1 <= idx <= 14,
    ensures
        r == bit_rate_mpeg1_l1(idx),
{
    match idx {
        1 => 32_000,
        2 => 64_000,
        3 => 96_000,
        4 => 128_000,
        5 => 160_000,
        6 => 192_000,
        7 => 224_000,
        8 => 256_000,
        9 => 288_000,
        10 => 320_000,
        11 => 352_000,
        12 => 384_000,
        13 => 416_000,
        _ => 448_000,
    }
}

/// The bit-rate of index `idx` (1 to 14) for MPEG version 1 layer 2.
pub open spec fn bit_rate_mpeg1_l2(idx: u32) -> u32 {
    match idx {
        1 => 32_000,
        2 => 48_000,
        3 => 56_000,
        4 => 64_000,
        5 => 80_000,
        6 => 96_000,
        7 => 112_000,
        8 => 128_000,
        9 => 160_000,
        10 => 192_000,
        11 => 224_000,
        12 => 256_000,
        13 => 320_000,
        _ => 384_000,
    }
}

fn bit_rates_mpeg1_l2(idx: u32) -> (r: u32)
    requires
        1 <= idx <= 14,
    ensures
        r == bit_rate_mpeg1_l2(idx),
{
    match idx {
        1 => 32_000,
        2 => 48_000,
        3 => 56_000,
        4 => 64_000,
        5 => 80_000,
        6 => 96_000,
        7 => 112_000,
        8 => 128_000,
        9 => 160_000,
        10 => 192_000,
        11 => 224_000,
        12 => 256_000,
        13 => 320_000,
        _ => 384_000,
    }
}

/// The bit-rate of index `idx` (1 to 14) for MPEG version 1 layer 3.
pub open spec fn bit_rate_mpeg1_l3(idx: u32) -> u32 {
    match idx {
        1 => 32_000,
        2 => 40_000,
        3 => 48_000,
        4 => 56_000,
        5 => 64_000,
        6 => 80_000,
        7 => 96_000,
        8 => 112_000,
        9 => 128_000,
        10 => 160_000,
        11 => 192_000,
        12 => 224_000,
        13 => 256_000,
        _ => 320_000,
    }
}

fn bit_rates_mpeg1_l3(idx: u32) -> (r: u32)
    requires
        1 <= idx <= 14,
    ensures
        r == bit_rate_mpeg1_l3(idx),
{
    match idx {
        1 => 32_000,
        2 => 40_000,
        3 => 48_000,
        4 => 56_000,
        5 => 64_000,
        6 => 80_000,
        7 => 96_000,
        8 => 112_000,
        9 => 128_000,
        10 => 160_000,
        11 => 192_000,
        12 => 224_000,
        13 => 256_000,
        _ => 320_000,
    }
}

/// The bit-rate of index `idx` (1 to 14) for MPEG versions 2 and 2.5 layer 1.
pub open spec fn bit_rate_mpeg2_l1(idx: u32) -> u32 {
    match idx {
        1 => 32_000,
        2 => 48_000,
        3 => 56_000,
        4 => 64_000,
        5 => 80_000,
        6 => 96_000,
        7 => 112_000,
        8 => 128_000,
        9 => 144_000,
        10 => 160_000,
        11 => 176_000,
        12 => 192_000,
        13 => 224_000,
        _ => 256_000,
    }
}

fn bit_rates_mpeg2_l1(idx: u32) -> (r: u32)
    requires
        1 <= idx <= 14,
    ensures
        r == bit_rate_mpeg2_l1(idx),
{
    match idx {
        1 => 32_000,
        2 => 48_000,
        3 => 56_000,
        4 => 64_000,
        5 => 80_000,
        6 => 96_000,
        7 => 112_000,
        8 => 128_000,
        9 => 144_000,
        10 => 160_000,
        11 => 176_000,
        12 => 192_000,
        13 => 224_000,
        _ => 256_000,
    }
}

/// The bit-rate of index `idx` (1 to 14) for MPEG versions 2 and 2.5 layers 2 and 3.
pub open spec fn bit_rate_mpeg2_l23(idx: u32) -> u32 {
    match idx {
        1 => 8_000,
        2 => 16_000,
        3 => 24_000,
        4 => 32_000,
        5 => 40_000,
        6 => 48_000,
        7 => 56_000,
        8 => 64_000,
        9 => 80_000,
        10 => 96_000,
        11 => 112_000,
        12 => 128_000,
        13 => 144_000,
        _ => 160_000,
    }
}

fn bit_rates_mpeg2_l23(idx: u32) -> (r: u32)
    requires
        1 <= idx <= 14,
    ensures
        r == bit_rate_mpeg2_l23(idx),
{
    match idx {
        1 => 8_000,
        2 => 16_000,
        3 => 24_000,
        4 => 32_000,
        5 => 40_000,
        6 => 48_000,
        7 => 56_000,
        8 => 64_000,
        9 => 80_000,
        10 => 96_000,
        11 => 112_000,
        12 => 128_000,
        13 => 144_000,
        _ => 160_000,
    }
}

/// The bit-rate of index `idx` (1 to 14) for a version and layer.
pub open spec fn bit_rate(idx: u32, version: MpegVersion, layer: MpegLayer) -> u32 {
    match (version, layer) {
        (MpegVersion::Mpeg1, MpegLayer::Layer1) => bit_rate_mpeg1_l1(idx),
        (MpegVersion::Mpeg1, MpegLayer::Layer2) => bit_rate_mpeg1_l2(idx),
        (MpegVersion::Mpeg1, MpegLayer::Layer3) => bit_rate_mpeg1_l3(idx),
        (_, MpegLayer::Layer1) => bit_rate_mpeg2_l1(idx),
        _ => bit_rate_mpeg2_l23(idx),
    }
}

fn bit_rate_for(idx: u32, version: MpegVersion, layer: MpegLayer) -> (r: u32)
    requires
        1 <= idx <= 14,
    ensures
        r == bit_rate(idx, version, layer),
        8_000 <= r <= 448_000,
{
    match (version, layer) {
        (MpegVersion::Mpeg1, MpegLayer::Layer1) => bit_rates_mpeg1_l1(idx),
        (MpegVersion::Mpeg1, MpegLayer::Layer2) => bit_rates_mpeg1_l2(idx),
        (MpegVersion::Mpeg1, MpegLayer::Layer3) => bit_rates_mpeg1_l3(idx),
        (_, MpegLayer::Layer1) => bit_rates_mpeg2_l1(idx),
        _ => bit_rates_mpeg2_l23(idx),
    }
}

/// The bit-rate tables, in kbit/s, of indices 1 to 14: MPEG-1 layers 1, 2 and 3, then MPEG-2
/// and 2.5 layer 1, then MPEG-2 and 2.5 layers 2 and 3.
pub open spec fn kbit_rates(version: MpegVersion, layer: MpegLayer) -> Seq<u32> {
    if version == MpegVersion::Mpeg1 {
        if layer == MpegLayer::Layer1 {
            seq![32u32, 64, 96, 128, 160, 192, 224, 256, 288, 320, 352, 384, 416, 448]
        } else if layer == MpegLayer::Layer2 {
            seq![32u32, 48, 56, 64, 80, 96, 112, 128, 160, 192, 224, 256, 320, 384]
        } else {
            seq![32u32, 40, 48, 56, 64, 80, 96, 112, 128, 160, 192, 224, 256, 320]
        }
    } else if layer == MpegLayer::Layer1 {
        seq![32u32, 48, 56, 64, 80, 96, 112, 128, 144, 160, 176, 192, 224, 256]
    } else {
        seq![8u32, 16, 24, 32, 40, 48, 56, 64, 80, 96, 112, 128, 144, 160]
    }
}

proof fn lemma_bit_rate_table(idx: u32, version: MpegVersion, layer: MpegLayer)
    requires
        1 <= idx <= 14,
    ensures
        bit_rate(idx, version, layer) == 1000 * kbit_rates(version, layer)[idx - 1],
{
    if idx == 1 {
    } else if idx == 2 {
    } else if idx == 3 {
    } else if idx == 4 {
    } else if idx == 5 {
    } else if idx == 6 {
    } else if idx == 7 {
    } else if idx == 8 {
    } else if idx == 9 {
    } else if idx == 10 {
    } else if idx == 11 {
    } else if idx == 12 {
    } else if idx == 13 {
    } else {
    }
}

/// The bit-rate of a decoded header is the entry of its bit-rate index (the high nibble of the
/// header's third byte) in the standard table of its version and layer.
pub proof fn lemma_header_bit_rate(w: u32)
    ensures
        header_of_word(w) matches Ok(h) ==> {
            let idx = (w & 0xf000) >> 12;
            &&& 1 <= idx <= 14
            &&& h.bitrate == 1000 * kbit_rates(h.version, h.layer)[idx - 1]
        },
{
    let idx = (w & 0xf000) >> 12;
    assert(idx <= 15) by (bit_vector)
        requires
            idx == (w & 0xf000) >> 12,
    ;
    if header_of_word(w) is Ok {
        let h = header_of_word(w).unwrap();
        lemma_bit_rate_table(idx, h.version, h.layer);
    }
}

/// A higher bit-rate index is a higher bit-rate, for every version and layer.
pub proof fn lemma_bit_rate_increasing(i: u32, j: u32, version: MpegVersion, layer: MpegLayer)
    requires
        1 <= i < j <= 14,
    ensures
        bit_rate(i, version, layer) < bit_rate(j, version, layer),
    decreases j - i,
{
    lemma_bit_rate_table(i, version, layer);
    lemma_bit_rate_table((i + 1) as u32, version, layer);
    let t = kbit_rates(version, layer);
    assert(t[i - 1] < t[i as int]) by {
        if i == 1 {
        } else if i == 2 {
        } else if i == 3 {
        } else if i == 4 {
        } else if i == 5 {
        } else if i == 6 {
        } else if i == 7 {
        } else if i == 8 {
        } else if i == 9 {
        } else if i == 10 {
        } else if i == 11 {
        } else if i == 12 {
        } else {
        }
    }
    if i + 1 < j {
        lemma_bit_rate_increasing((i + 1) as u32, j, version, layer);
    }
}

/// The sample rate and its table index coded by the 2-bit field `code` for a version, or `None`
/// for the reserved code.
pub open spec fn sample_rate_of(code: u32, version: MpegVersion) -> Option<(u32, usize)> {
    match (code, version) {
        (0, MpegVersion::Mpeg1) => Some((44_100, 0)),
        (1, MpegVersion::Mpeg1) => Some((48_000, 1)),
        (2, MpegVersion::Mpeg1) => Some((32_000, 2)),
        (0, MpegVersion::Mpeg2) => Some((22_050, 3)),
        (1, MpegVersion::Mpeg2) => Some((24_000, 4)),
        (2, MpegVersion::Mpeg2) => Some((16_000, 5)),
        (0, MpegVersion::Mpeg2p5) => Some((11_025, 6)),
        (1, MpegVersion::Mpeg2p5) => Some((12_000, 7)),
        (2, MpegVersion::Mpeg2p5) => Some((8_000, 8)),
        _ => None,
    }
}

/// Whether a layer 2 frame may not use a bit-rate with its channel mode.
pub open spec fn layer2_forbidden(bitrate: u32, channels: Channels) -> bool {
    if channels is Mono {
        bitrate == 224_000 || bitrate == 256_000 || bitrate == 320_000 || bitrate == 384_000
    } else {
        bitrate == 32_000 || bitrate == 48_000 || bitrate == 56_000 || bitrate == 80_000
    }
}

/// The size of a frame, excluding its 4-byte header and its CRC if it has one.
pub open spec fn frame_size_of(
    version: MpegVersion,
    bitrate: u32,
    sample_rate: u32,
    has_padding: bool,
    has_crc: bool,
) -> int {
    (if version == MpegVersion::Mpeg1 { 144int } else { 72int }) * bitrate / (sample_rate as int) + (if has_padding {
        1int
    } else {
        0int
    }) - (if has_crc { 2int } else { 0int }) - 4
}

/// The channel mode coded by the mode and mode extension bits of the header word `w`.
pub open spec fn channels_of(w: u32, layer: MpegLayer) -> Channels {
    let mode = (w & 0xc0) >> 6;
    if mode == 0 {
        Channels::Stereo
    } else if mode == 2 {
        Channels::DualMono
    } else if mode == 3 {
        Channels::Mono
    } else if layer == MpegLayer::Layer3 {
        Channels::JointStereo(Mode::Layer3 { mid_side: w & 0x20 != 0, intensity: w & 0x10 != 0 })
    } else {
        Channels::JointStereo(Mode::Intensity { bound: (((1 + (w & 0x30)) as u32) >> 4) << 2 })
    }
}

/// The frame header coded by the 32-bit header word `w`, before any CRC that follows it: the
/// header, or the error for the first field that is invalid.
pub open spec fn header_of_word(w: u32) -> Result<FrameHeader, Error> {
    let v = (w & 0x18_0000) >> 19;
    let l = (w & 0x6_0000) >> 17;
    let b = (w & 0xf000) >> 12;
    if v == 1 {
        Err(Error::DecodeError("Invalid MPEG version."))
    } else if l == 0 {
        Err(Error::DecodeError("Invalid MPEG layer."))
    } else if b == 0 {
        Err(Error::Unsupported("Free bit-rate is not supported."))
    } else if b == 15 {
        Err(Error::DecodeError("Invalid bit-rate."))
    } else {
        let version = if v == 0 {
            MpegVersion::Mpeg2p5
        } else if v == 2 {
            MpegVersion::Mpeg2
        } else {
            MpegVersion::Mpeg1
        };
        let layer = if l == 1 {
            MpegLayer::Layer3
        } else if l == 2 {
            MpegLayer::Layer2
        } else {
            MpegLayer::Layer1
        };
        let bitrate = bit_rate(b, version, layer);
        match sample_rate_of((w & 0xc00) >> 10, version) {
            None => Err(Error::DecodeError("Invalid sample rate.")),
            Some((sample_rate, sample_rate_idx)) => {
                let channels = channels_of(w, layer);
                if layer == MpegLayer::Layer2 && layer2_forbidden(bitrate, channels) {
                    if channels is Mono {
                        Err(Error::DecodeError("Invalid Layer 2 bitrate for mono channel mode."))
                    } else {
                        Err(Error::DecodeError("Invalid Layer 2 bitrate for non-mono channel mode."))
                    }
                } else if w & 0x3 == 2 {
                    Err(Error::DecodeError("Invalid emphasis."))
                } else {
                    let has_padding = w & 0x200 != 0;
                    Ok(FrameHeader {
                        version,
                        layer,
                        bitrate,
                        sample_rate,
                        sample_rate_idx,
                        channels,
                        emphasis: if w & 0x3 == 0 {
                            Emphasis::NoEmphasis
                        } else if w & 0x3 == 1 {
                            Emphasis::Fifty15
                        } else {
                            Emphasis::CcitJ17
                        },
                        is_copyrighted: w & 0x8 != 0,
                        is_original: w & 0x4 != 0,
                        has_padding,
                        crc: None,
                        frame_size: frame_size_of(version, bitrate, sample_rate, has_padding, false) as usize,
                    })
                }
            },
        }
    }
}

/// The version of a decoded header is coded by bits 19 and 20 of its word (3: MPEG-1, 2: MPEG-2,
/// 0: MPEG-2.5; 1 is refused), its layer by bits 17 and 18 (3: layer 1, 2: layer 2, 1: layer 3;
/// 0 is refused), and its sample rate by bits 10 and 11: codes 0, 1 and 2 are 44.1, 48 and 32 kHz
/// for MPEG-1, half of that for MPEG-2 and a quarter for MPEG-2.5; code 3 is refused.
pub proof fn lemma_header_version_layer_rate(w: u32)
    ensures
        header_of_word(w) matches Ok(h) ==> {
            let v = (w & 0x18_0000) >> 19;
            let l = (w & 0x6_0000) >> 17;
            let code = (w & 0xc00) >> 10;
            let base: int = if code == 0 {
                44_100
            } else if code == 1 {
                48_000
            } else {
                32_000
            };
            &&& v != 1
            &&& v == 3 ==> h.version == MpegVersion::Mpeg1 && h.sample_rate == base
            &&& v == 2 ==> h.version == MpegVersion::Mpeg2 && 2 * h.sample_rate == base
            &&& v == 0 ==> h.version == MpegVersion::Mpeg2p5 && 4 * h.sample_rate == base
            &&& l != 0
            &&& l == 3 ==> h.layer == MpegLayer::Layer1
            &&& l == 2 ==> h.layer == MpegLayer::Layer2
            &&& l == 1 ==> h.layer == MpegLayer::Layer3
            &&& code <= 2
        },
{
}

/// The channel mode of a decoded header is coded by bits 6 and 7 of its word (0: stereo, 1: joint
/// stereo, 2: dual mono, 3: mono), its emphasis by bits 0 and 1 (0: none, 1: 50/15 us, 3: CCIT
/// J.17; 2 is refused), and the padding, copyright and original flags by bits 9, 3 and 2.
pub proof fn lemma_header_mode_and_flags(w: u32)
    ensures
        header_of_word(w) matches Ok(h) ==> {
            let mode = (w & 0xc0) >> 6;
            let emphasis = w & 0x3;
            &&& mode == 0 ==> h.channels == Channels::Stereo
            &&& mode == 1 ==> h.channels is JointStereo
            &&& mode == 2 ==> h.channels == Channels::DualMono
            &&& mode == 3 ==> h.channels == Channels::Mono
            &&& emphasis != 2
            &&& emphasis == 0 ==> h.emphasis == Emphasis::NoEmphasis
            &&& emphasis == 1 ==> h.emphasis == Emphasis::Fifty15
            &&& emphasis == 3 ==> h.emphasis == Emphasis::CcitJ17
            &&& h.has_padding == (w & 0x200 != 0)
            &&& h.is_copyrighted == (w & 0x8 != 0)
            &&& h.is_original == (w & 0x4 != 0)
        },
{
}

/// Whether byte `i` of `d` starts a frame synchronization word: eleven set bits.
pub open spec fn is_mp3_sync_at(d: Seq<u8>, i: int) -> bool {
    0 <= i && i + 1 < d.len() && d[i] == 0xff && d[i + 1] >= 0xe0
}

/// The first index at or after `p` where a synchronization word starts, or the length of `d` if
/// there is none.
pub open spec fn mp3_first_sync(d: Seq<u8>, p: int) -> int
    decreases d.len() - p,
{
    if p < 0 || p + 1 >= d.len() {
        d.len() as int
    } else if is_mp3_sync_at(d, p) {
        p
    } else {
        mp3_first_sync(d, p + 1)
    }
}

pub proof fn lemma_mp3_first_sync(d: Seq<u8>, p: int)
    requires
        0 <= p,
    ensures
        p <= mp3_first_sync(d, p) <= d.len() || (p > d.len() && mp3_first_sync(d, p) == d.len()),
        mp3_first_sync(d, p) < d.len() ==> is_mp3_sync_at(d, mp3_first_sync(d, p)),
        forall|i: int| p <= i < mp3_first_sync(d, p) ==> !is_mp3_sync_at(d, i),
    decreases d.len() - p,
{
    if p + 1 < d.len() && !is_mp3_sync_at(d, p) {
        lemma_mp3_first_sync(d, p + 1);
    }
}

/// The 32-bit big-endian word of bytes `i` to `i + 3` of `d`.
pub open spec fn be_word_at(d: Seq<u8>, i: int) -> u32 {
    (d[i] * 0x100_0000 + d[i + 1] * 0x1_0000 + d[i + 2] * 0x100 + d[i + 3]) as u32
}

/// The frame header that a read at byte `p` of `d` finds, and the position after it: the read
/// skips to the first synchronization word, takes the 4-byte header word and, for a frame that
/// is protected, the 16-bit CRC that follows.
pub open spec fn frame_header_at(d: Seq<u8>, p: int) -> (Result<FrameHeader, Error>, int) {
    let j = mp3_first_sync(d, p);
    if j + 4 > d.len() {
        (Err(eof()), d.len() as int)
    } else {
        let w = be_word_at(d, j);
        match header_of_word(w) {
            Err(e) => (Err(e), j + 4),
            Ok(h) => if w & 0x1_0000 == 0 {
                if j + 6 > d.len() {
                    (Err(eof()), d.len() as int)
                } else {
                    (
                        Ok(
                            FrameHeader {
                                crc: Some((d[j + 4] * 0x100 + d[j + 5]) as u16),
                                frame_size: (h.frame_size - 2) as usize,
                                ..h
                            },
                        ),
                        j + 6,
                    )
                }
            } else {
                (Ok(h), j + 4)
            },
        }
    }
}


proof fn lemma_frame_size_bounds(factor: int, bitrate: int, sample_rate: int)
    requires
        72 <= factor <= 144,
        8_000 <= bitrate <= 448_000,
        8_000 <= sample_rate <= 48_000,
    ensures
        12 <= factor * bitrate / sample_rate <= 8064,
{
    assert(576_000 <= factor * bitrate <= 64_512_000) by (nonlinear_arith)
        requires
            72 <= factor <= 144,
            8_000 <= bitrate <= 448_000,
    ;
    vstd::arithmetic::div_mod::lemma_div_is_ordered(576_000, factor * bitrate, sample_rate);
    vstd::arithmetic::div_mod::lemma_div_is_ordered_by_denominator(576_000, sample_rate, 48_000);
    vstd::arithmetic::div_mod::lemma_div_is_ordered(factor * bitrate, 64_512_000, sample_rate);
    vstd::arithmetic::div_mod::lemma_div_is_ordered_by_denominator(64_512_000, 8_000, sample_rate);
}

/// Every bit-rate of the tables lies between 8 and 448 kbit/s.
proof fn lemma_bit_rate_range(idx: u32, version: MpegVersion, layer: MpegLayer)
    requires
        1 <= idx <= 14,
    ensures
        8_000 <= bit_rate(idx, version, layer) <= 448_000,
{
    lemma_bit_rate_table(1, version, layer);
    lemma_bit_rate_table(14, version, layer);
    if idx > 1 {
        lemma_bit_rate_increasing(1, idx, version, layer);
    }
    if idx < 14 {
        lemma_bit_rate_increasing(idx, 14, version, layer);
    }
}

/// A frame holds the coded bits of 1152 samples (MPEG-1) or 576 samples (MPEG-2 and 2.5) at its
/// bit-rate and sample rate: its length in bytes, header included and padding byte aside, is
/// that number of bits over 8, rounded down.
pub proof fn lemma_frame_length(w: u32)
    ensures
        header_of_word(w) matches Ok(h) ==> {
            let samples: int = if h.version == MpegVersion::Mpeg1 {
                1152
            } else {
                576
            };
            let bytes = h.frame_size + 4 - (if h.has_padding {
                1int
            } else {
                0int
            });
            &&& bytes * 8 * h.sample_rate <= samples * h.bitrate
            &&& samples * h.bitrate < (bytes + 1) * 8 * h.sample_rate
        },
{
    if header_of_word(w) is Ok {
        let h = header_of_word(w).unwrap();
        let b = (w & 0xf000) >> 12;
        lemma_header_bit_rate(w);
        lemma_bit_rate_range(b, h.version, h.layer);
        let factor: int = if h.version == MpegVersion::Mpeg1 {
            144
        } else {
            72
        };
        let br = h.bitrate as int;
        let sr = h.sample_rate as int;
        assert(8_000 <= sr <= 48_000);
        lemma_frame_size_bounds(factor, br, sr);
        let q = factor * br / sr;
        vstd::arithmetic::div_mod::lemma_fundamental_div_mod(factor * br, sr);
        assert(q * sr <= factor * br < (q + 1) * sr) by (nonlinear_arith)
            requires
                factor * br == sr * q + (factor * br) % sr,
                0 <= (factor * br) % sr < sr,
        ;
        assert(h.frame_size + 4 - (if h.has_padding { 1int } else { 0int }) == q);
        assert(q * 8 * sr <= 8 * factor * br < (q + 1) * 8 * sr) by (nonlinear_arith)
            requires
                q * sr <= factor * br < (q + 1) * sr,
        ;
    }
}

/// Decodes the fields of a 32-bit frame header word, before any CRC that follows it.
#[verifier::spinoff_prover]
pub fn decode_header_word(w: u32) -> (r: Result<FrameHeader, Error>)
    ensures
        r == header_of_word(w),
        r matches Ok(h) ==> 6 <= h.frame_size <= 8065,
{
    // The MP3 header is as follows:
    //
    // 0b1111_1111 0b111v_vlly 0brrrr_hhpx 0bmmmm_coee
    // where:
    //     vv   = version, ll = layer      , y = crc
    //     rrrr = bitrate, hh = sample rate, p = padding , x  = private bit
    //     mmmm = mode   , c  = copyright  , o = original, ee = emphasis
    proof {
        assert((w & 0x18_0000) >> 19 <= 3 && (w & 0x6_0000) >> 17 <= 3 && (w & 0xc00) >> 10 <= 3
            && (w & 0xc0) >> 6 <= 3 && w & 0x3 <= 3) by (bit_vector);
    }
    let version = match (w & 0x18_0000) >> 19 {
        0 => MpegVersion::Mpeg2p5,
        2 => MpegVersion::Mpeg2,
        3 => MpegVersion::Mpeg1,
        _ => return decode_error("Invalid MPEG version."),
    };
    let layer = match (w & 0x6_0000) >> 17 {
        1 => MpegLayer::Layer3,
        2 => MpegLayer::Layer2,
        3 => MpegLayer::Layer1,
        _ => return decode_error("Invalid MPEG layer."),
    };
    let b = (w & 0xf000) >> 12;
    // "Free" bit-rate. Note, this is NOT variable bit-rate and is not a mandatory feature of MP3
    // decoders.
    if b == 0 {
        return unsupported_error("Free bit-rate is not supported.");
    }
    if b == 15 {
        return decode_error("Invalid bit-rate.");
    }
    proof {
        assert((w & 0xf000) >> 12 <= 15) by (bit_vector);
    }
    let bitrate = bit_rate_for(b, version, layer);
    let code = (w & 0xc00) >> 10;
    let (sample_rate, sample_rate_idx): (u32, usize) = match (code, version) {
        (0, MpegVersion::Mpeg1) => (44_100, 0),
        (1, MpegVersion::Mpeg1) => (48_000, 1),
        (2, MpegVersion::Mpeg1) => (32_000, 2),
        (0, MpegVersion::Mpeg2) => (22_050, 3),
        (1, MpegVersion::Mpeg2) => (24_000, 4),
        (2, MpegVersion::Mpeg2) => (16_000, 5),
        (0, MpegVersion::Mpeg2p5) => (11_025, 6),
        (1, MpegVersion::Mpeg2p5) => (12_000, 7),
        (2, MpegVersion::Mpeg2p5) => (8_000, 8),
        _ => return decode_error("Invalid sample rate."),
    };
    let channels = match (w & 0xc0) >> 6 {
        // Stereo, for layers 1, 2, and 3.
        0 => Channels::Stereo,
        // Dual mono, for layers 1, 2, and 3.
        2 => Channels::DualMono,
        // Mono, for layers 1, 2, and 3.
        3 => Channels::Mono,
        // Joint stereo mode for layer 3 supports a combination of Mid-Side and Intensity Stereo
        // depending on the mode extension bits. For layers 1 and 2 it only supports Intensity
        // Stereo, and the mode extension bits indicate for which sub-bands it is applied.
        _ => match layer {
            MpegLayer::Layer3 => Channels::JointStereo(
                Mode::Layer3 { mid_side: w & 0x20 != 0, intensity: w & 0x10 != 0 },
            ),
            _ => {
                proof {
                    assert(1 + (w & 0x30) <= 0x31) by (bit_vector);
                }
                Channels::JointStereo(Mode::Intensity { bound: ((1 + (w & 0x30)) >> 4) << 2 })
            },
        },
    };
    // Some layer 2 channel and bit-rate combinations are not allowed. Check that the frame does
    // not use them.
    match layer {
        MpegLayer::Layer2 => {
            match channels {
                Channels::Mono => {
                    if bitrate == 224_000 || bitrate == 256_000 || bitrate == 320_000 || bitrate
                        == 384_000 {
                        return decode_error("Invalid Layer 2 bitrate for mono channel mode.");
                    }
                },
                _ => {
                    if bitrate == 32_000 || bitrate == 48_000 || bitrate == 56_000 || bitrate
                        == 80_000 {
                        return decode_error("Invalid Layer 2 bitrate for non-mono channel mode.");
                    }
                },
            }
        },
        _ => {},
    }
    let emphasis = match w & 0x3 {
        0 => Emphasis::NoEmphasis,
        1 => Emphasis::Fifty15,
        3 => Emphasis::CcitJ17,
        _ => return decode_error("Invalid emphasis."),
    };
    let has_padding = w & 0x200 != 0;
    let factor: u32 = match version {
        MpegVersion::Mpeg1 => 144,
        _ => 72,
    };
    proof {
        lemma_frame_size_bounds(factor as int, bitrate as int, sample_rate as int);
    }
    // Calculate the size of the frame excluding this header.
    let frame_size = (factor * bitrate / sample_rate) as usize + if has_padding {
        1
    } else {
        0
    } - 4;
    Ok(
        FrameHeader {
            version,
            layer,
            bitrate,
            sample_rate,
            sample_rate_idx,
            channels,
            emphasis,
            is_copyrighted: w & 0x8 != 0,
            is_original: w & 0x4 != 0,
            has_padding,
            crc: None,
            frame_size,
        },
    )
}

/// Reads bytes until the first two bytes of a frame synchronization word have been read, and
/// returns them.
fn sync_frame(reader: &mut BufStream) -> (r: Result<u16, Error>)
    ensures
        final(reader).data() == old(reader).data(),
        ({
            let d = old(reader).data();
            let i = mp3_first_sync(d, old(reader).position() as int);
            &&& r is Ok <==> i < d.len()
            &&& r matches Ok(sync) ==> sync == d[i] * 0x100 + d[i + 1]
                && final(reader).position() == i + 2
            &&& r matches Err(e) ==> e == eof() && final(reader).position() == d.len()
        }),
{
    let ghost d = reader.data();
    let ghost p0 = reader.position() as int;
    proof {
        reader.lemma_position_bound();
        lemma_mp3_first_sync(d, p0);
    }
    let mut sync: u16 = 0;
    // The frame header always starts at a byte boundary with 0xffe (11 consecutive 1 bits), if
    // supporting up to MPEG version 2.5.
    loop
        invariant_except_break
            reader.data() == d,
            d == old(reader).data(),
            p0 == old(reader).position(),
            p0 <= reader.position() <= d.len(),
            reader.position() >= p0 + 1 ==> sync == (if reader.position() >= p0 + 2 {
                d[reader.position() - 2] * 0x100 + d[reader.position() - 1]
            } else {
                d[p0] as int
            }),
            reader.position() == p0 ==> sync == 0,
            forall|i: int| p0 <= i < reader.position() - 1 ==> !is_mp3_sync_at(d, i),
        ensures
            reader.data() == d,
            reader.position() >= p0 + 2,
            sync == d[reader.position() - 2] * 0x100 + d[reader.position() - 1],
            mp3_first_sync(d, p0) == reader.position() - 2,
        decreases d.len() - reader.position(),
    {
        proof {
            reader.lemma_position_bound();
        }
        let ghost pos = reader.position() as int;
        let byte = match reader.read_u8() {
            Ok(b) => b,
            Err(e) => {
                proof {
                    lemma_mp3_first_sync(d, p0);
                    if mp3_first_sync(d, p0) < d.len() {
                        assert(is_mp3_sync_at(d, mp3_first_sync(d, p0)));
                        assert(false);
                    }
                }
                return Err(e);
            },
        };
        sync = (sync % 256) * 256 + byte as u16;
        if sync >= 0xffe0 {
            proof {
                lemma_mp3_first_sync(d, p0);
                assert(pos >= p0 + 1);
                assert(is_mp3_sync_at(d, pos - 1));
            }
            break;
        }
        proof {
            if pos >= p0 + 1 {
                assert(!is_mp3_sync_at(d, pos - 1));
            }
        }
    }
    proof {
        reader.lemma_position_bound();
    }
    Ok(sync)
}

/// Reads a MPEG frame header from the stream and returns it or an error.
pub fn read_frame_header(reader: &mut BufStream) -> (r: Result<FrameHeader, Error>)
    ensures
        final(reader).data() == old(reader).data(),
        (r, final(reader).position() as int) == frame_header_at(
            old(reader).data(),
            old(reader).position() as int,
        ),
{
    let ghost d = reader.data();
    proof {
        lemma_mp3_first_sync(d, reader.position() as int);
    }
    // Synchronize and read the frame header.
    let sync = sync_frame(reader)?;
    let ghost j = reader.position() - 2;
    proof {
        reader.lemma_position_bound();
    }
    let b2 = reader.read_u8()?;
    let b3 = reader.read_u8()?;
    let w: u32 = (sync as u32) * 0x1_0000 + (b2 as u32) * 0x100 + b3 as u32;
    assert(w == be_word_at(d, j));
    let header = decode_header_word(w)?;
    if w & 0x1_0000 == 0 {
        let c0 = reader.read_u8()?;
        let c1 = reader.read_u8()?;
        let crc: u16 = (c0 as u16) * 0x100 + c1 as u16;
        Ok(FrameHeader { crc: Some(crc), frame_size: header.frame_size - 2, ..header })
    } else {
        Ok(header)
    }
}

} // verus!
