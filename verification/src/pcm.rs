//! Decoding of raw PCM and log-PCM (G.711 A-law and Mu-law) audio.

use vstd::prelude::*;
use vstd::arithmetic::power2::{pow2, lemma2_to64};
use crate::audio::{AudioBuffer, Signal, SignalSpec, popcount};
use crate::flac::decoder::write_plane;
use crate::codecs::{CodecDescriptor, CodecParameters, CodecType, Decoder, DecoderKind, DecoderOptions};
use crate::errors::{Error, decode_error, unsupported_error};
use crate::formats::Packet;
use crate::io::{BufStream, be_val, le_val, pow2_u32};

pub mod laws;
pub mod integer_laws;

verus! {

/// The linear value of an A-law coded sample: the value with every other bit inverted holds a
/// sign bit, a 3-bit segment and a 4-bit mantissa.
pub open spec fn alaw(a: u8) -> int {
    let v = (a ^ 0x55u8) as int;
    let mant = v % 16;
    let seg = (v / 16) % 8;
    let mag = if seg == 0 {
        mant * 16 + 0x8
    } else if seg == 1 {
        mant * 16 + 0x108
    } else {
        (mant * 16 + 0x108) * pow2((seg - 1) as nat)
    };
    if v >= 128 {
        mag
    } else {
        -mag
    }
}

/// The linear value of a Mu-law coded sample: the complemented value holds a sign bit, a 3-bit
/// segment and a 4-bit mantissa.
pub open spec fn mulaw(m: u8) -> int {
    let v = 255 - m;
    let mant = v % 16;
    let seg = (v / 16) % 8;
    let t = (mant * 8 + 0x84) * pow2(seg as nat);
    if v >= 128 {
        t - 0x84
    } else {
        0x84 - t
    }
}

/// Converts an A-law coded sample to a linear 16-bit sample.
pub fn alaw_to_linear(a_val: u8) -> (r: i16)
    ensures
        r == alaw(a_val),
{
    let a = a_val ^ 0x55;
    let quant = a & 0x0f;
    let seg = (a & 0x70) >> 4;
    proof {
        lemma2_to64();
        assert(a & 0x0f == a % 16 && (a & 0x70) >> 4 == (a / 16) % 8) by (bit_vector);
        assert((a & 0x80 == 0x80) == (a >= 128)) by (bit_vector);
    }
    let mut t = (quant as i16) * 16;
    if seg == 0 {
        t = t + 0x8;
    } else if seg == 1 {
        t = t + 0x108;
    } else {
        let base = t + 0x108;
        proof {
            vstd::arithmetic::power2::lemma_pow2_strictly_increases((seg - 1) as nat, 7);
            assert(base * pow2((seg - 1) as nat) <= 504 * 64) by (nonlinear_arith)
                requires
                    0 <= base <= 504,
                    0 < pow2((seg - 1) as nat) <= 64,
            ;
        }
        t = base * (pow2_u32((seg - 1) as u32) as i16);
    }
    if a & 0x80 == 0x80 {
        t
    } else {
        -t
    }
}

/// The bias added to Mu-law magnitudes before they are scaled.
const MULAW_BIAS: i16 = 0x84;

/// Converts a Mu-law coded sample to a linear 16-bit sample.
pub fn mulaw_to_linear(mu_val: u8) -> (r: i16)
    ensures
        r == mulaw(mu_val),
{
    // Complement to obtain normal u-law value.
    let m = !mu_val;
    let quant = m & 0x0f;
    let seg = (m & 0x70) >> 4;
    proof {
        lemma2_to64();
        assert(!mu_val == 255 - mu_val) by (bit_vector);
        assert(m & 0x0f == m % 16 && (m & 0x70) >> 4 == (m / 16) % 8) by (bit_vector);
        assert((m & 0x80 == 0x80) == (m >= 128)) by (bit_vector);
        vstd::arithmetic::power2::lemma_pow2_strictly_increases(seg as nat, 8);
    }
    // Extract and bias the quantization bits. Then shift up by the segment number and subtract out
    // the bias.
    let base = (quant as i16) * 8 + MULAW_BIAS;
    proof {
        assert(base * pow2(seg as nat) <= 252 * 128) by (nonlinear_arith)
            requires
                0 <= base <= 252,
                0 < pow2(seg as nat) <= 128,
        ;
    }
    let t = base * (pow2_u32(seg as u32) as i16);
    if m & 0x80 == 0x80 {
        t - MULAW_BIAS
    } else {
        MULAW_BIAS - t
    }
}

/// The codecs the PCM decoder supports.
pub open spec fn pcm_descriptors() -> Seq<CodecDescriptor> {
    seq![
        CodecDescriptor { codec: CodecType::PcmS32le, short_name: "pcm_s32le", long_name: "PCM Signed 32-bit Little-Endian Interleaved", inst: DecoderKind::Pcm },
        CodecDescriptor { codec: CodecType::PcmS32be, short_name: "pcm_s32be", long_name: "PCM Signed 32-bit Big-Endian Interleaved", inst: DecoderKind::Pcm },
        CodecDescriptor { codec: CodecType::PcmS24le, short_name: "pcm_s24le", long_name: "PCM Signed 24-bit Little-Endian Interleaved", inst: DecoderKind::Pcm },
        CodecDescriptor { codec: CodecType::PcmS24be, short_name: "pcm_s24be", long_name: "PCM Signed 24-bit Big-Endian Interleaved", inst: DecoderKind::Pcm },
        CodecDescriptor { codec: CodecType::PcmS16le, short_name: "pcm_s16le", long_name: "PCM Signed 16-bit Little-Endian Interleaved", inst: DecoderKind::Pcm },
        CodecDescriptor { codec: CodecType::PcmS16be, short_name: "pcm_s16be", long_name: "PCM Signed 16-bit Big-Endian Interleaved", inst: DecoderKind::Pcm },
        CodecDescriptor { codec: CodecType::PcmS8, short_name: "pcm_s8", long_name: "PCM Signed 8-bit Interleaved", inst: DecoderKind::Pcm },
        CodecDescriptor { codec: CodecType::PcmU32le, short_name: "pcm_u32le", long_name: "PCM Unsigned 32-bit Little-Endian Interleaved", inst: DecoderKind::Pcm },
        CodecDescriptor { codec: CodecType::PcmU32be, short_name: "pcm_u32be", long_name: "PCM Unsigned 32-bit Big-Endian Interleaved", inst: DecoderKind::Pcm },
        CodecDescriptor { codec: CodecType::PcmU24le, short_name: "pcm_u24le", long_name: "PCM Unsigned 24-bit Little-Endian Interleaved", inst: DecoderKind::Pcm },
        CodecDescriptor { codec: CodecType::PcmU24be, short_name: "pcm_u24be", long_name: "PCM Unsigned 24-bit Big-Endian Interleaved", inst: DecoderKind::Pcm },
        CodecDescriptor { codec: CodecType::PcmU16le, short_name: "pcm_u16le", long_name: "PCM Unsigned 16-bit Little-Endian Interleaved", inst: DecoderKind::Pcm },
        CodecDescriptor { codec: CodecType::PcmU16be, short_name: "pcm_u16be", long_name: "PCM Unsigned 16-bit Big-Endian Interleaved", inst: DecoderKind::Pcm },
        CodecDescriptor { codec: CodecType::PcmU8, short_name: "pcm_u8", long_name: "PCM Unsigned 8-bit Interleaved", inst: DecoderKind::Pcm },
        CodecDescriptor { codec: CodecType::PcmF32le, short_name: "pcm_f32le", long_name: "PCM 32-bit Little-Endian Floating Point Interleaved", inst: DecoderKind::Pcm },
        CodecDescriptor { codec: CodecType::PcmF32be, short_name: "pcm_f32be", long_name: "PCM 32-bit Big-Endian Floating Point Interleaved", inst: DecoderKind::Pcm },
        CodecDescriptor { codec: CodecType::PcmF64le, short_name: "pcm_f64le", long_name: "PCM 64-bit Little-Endian Floating Point Interleaved", inst: DecoderKind::Pcm },
        CodecDescriptor { codec: CodecType::PcmF64be, short_name: "pcm_f64be", long_name: "PCM 64-bit Big-Endian Floating Point Interleaved", inst: DecoderKind::Pcm },
        CodecDescriptor { codec: CodecType::PcmAlaw, short_name: "pcm_alaw", long_name: "PCM A-law", inst: DecoderKind::Pcm },
        CodecDescriptor { codec: CodecType::PcmMulaw, short_name: "pcm_mulaw", long_name: "PCM Mu-law", inst: DecoderKind::Pcm },
    ]
}

/// How the samples of a PCM codec are coded: 0 for signed and 1 for unsigned integers, 2 for
/// A-law and 3 for Mu-law.
#[derive(Copy, Clone, Debug, PartialEq, Eq, Structural)]
pub enum PcmCoding {
    Signed,
    Unsigned,
    ALaw,
    MuLaw,
}

/// The coding, the number of bytes per sample, and whether the bytes are big-endian, of the PCM
/// codecs whose samples are integers or G.711 codes; `None` for any other codec.
pub open spec fn pcm_format(codec: CodecType) -> Option<(PcmCoding, nat, bool)> {
    match codec {
        CodecType::PcmS32le => Some((PcmCoding::Signed, 4nat, false)),
        CodecType::PcmS32be => Some((PcmCoding::Signed, 4nat, true)),
        CodecType::PcmS24le => Some((PcmCoding::Signed, 3nat, false)),
        CodecType::PcmS24be => Some((PcmCoding::Signed, 3nat, true)),
        CodecType::PcmS16le => Some((PcmCoding::Signed, 2nat, false)),
        CodecType::PcmS16be => Some((PcmCoding::Signed, 2nat, true)),
        CodecType::PcmS8 => Some((PcmCoding::Signed, 1nat, false)),
        CodecType::PcmU32le => Some((PcmCoding::Unsigned, 4nat, false)),
        CodecType::PcmU32be => Some((PcmCoding::Unsigned, 4nat, true)),
        CodecType::PcmU24le => Some((PcmCoding::Unsigned, 3nat, false)),
        CodecType::PcmU24be => Some((PcmCoding::Unsigned, 3nat, true)),
        CodecType::PcmU16le => Some((PcmCoding::Unsigned, 2nat, false)),
        CodecType::PcmU16be => Some((PcmCoding::Unsigned, 2nat, true)),
        CodecType::PcmU8 => Some((PcmCoding::Unsigned, 1nat, false)),
        CodecType::PcmAlaw => Some((PcmCoding::ALaw, 1nat, false)),
        CodecType::PcmMulaw => Some((PcmCoding::MuLaw, 1nat, false)),
        _ => None,
    }
}

fn pcm_format_of(codec: CodecType) -> (r: Option<(PcmCoding, usize, bool)>)
    ensures
        match pcm_format(codec) {
            Some((c, w, be)) => r == Some((c, w as usize, be)),
            None => r is None,
        },
        r matches Some((c, w, be)) ==> 1 <= w <= 4 && (c == PcmCoding::ALaw || c == PcmCoding::MuLaw
            ==> w == 1 && !be),
{
    match codec {
        CodecType::PcmS32le => Some((PcmCoding::Signed, 4, false)),
        CodecType::PcmS32be => Some((PcmCoding::Signed, 4, true)),
        CodecType::PcmS24le => Some((PcmCoding::Signed, 3, false)),
        CodecType::PcmS24be => Some((PcmCoding::Signed, 3, true)),
        CodecType::PcmS16le => Some((PcmCoding::Signed, 2, false)),
        CodecType::PcmS16be => Some((PcmCoding::Signed, 2, true)),
        CodecType::PcmS8 => Some((PcmCoding::Signed, 1, false)),
        CodecType::PcmU32le => Some((PcmCoding::Unsigned, 4, false)),
        CodecType::PcmU32be => Some((PcmCoding::Unsigned, 4, true)),
        CodecType::PcmU24le => Some((PcmCoding::Unsigned, 3, false)),
        CodecType::PcmU24be => Some((PcmCoding::Unsigned, 3, true)),
        CodecType::PcmU16le => Some((PcmCoding::Unsigned, 2, false)),
        CodecType::PcmU16be => Some((PcmCoding::Unsigned, 2, true)),
        CodecType::PcmU8 => Some((PcmCoding::Unsigned, 1, false)),
        CodecType::PcmAlaw => Some((PcmCoding::ALaw, 1, false)),
        CodecType::PcmMulaw => Some((PcmCoding::MuLaw, 1, false)),
        _ => None,
    }
}

/// The coded value of the `w`-byte sample at byte `off` of `d`.
pub open spec fn raw_sample(d: Seq<u8>, off: int, w: nat, be: bool) -> nat {
    if be {
        be_val(d.subrange(off, off + w))
    } else {
        le_val(d.subrange(off, off + w))
    }
}

/// The 32-bit sample decoded from a coded value: integers are moved to the top of 32 bits by
/// `shift` (unsigned ones then offset to be centred on zero), G.711 codes are expanded to 16 bits
/// and moved to the top.
pub open spec fn pcm_sample(coding: PcmCoding, raw: nat, shift: u32) -> i32 {
    match coding {
        PcmCoding::Signed => ((raw as u32) << shift) as i32,
        PcmCoding::Unsigned => ((((raw as u32) << shift) as int + 0x8000_0000) % 0x1_0000_0000) as u32 as i32,
        PcmCoding::ALaw => (alaw(raw as u8) * 0x1_0000) as i32,
        PcmCoding::MuLaw => (mulaw(raw as u8) * 0x1_0000) as i32,
    }
}

proof fn lemma_le_val_single(s: Seq<u8>)
    requires
        s.len() == 1,
    ensures
        le_val(s) == s[0],
        be_val(s) == s[0],
{
    reveal_with_fuel(le_val, 2);
    reveal_with_fuel(be_val, 2);
    assert(s.drop_first() =~= Seq::<u8>::empty());
    assert(s.drop_last() =~= Seq::<u8>::empty());
}

fn read_raw(stream: &mut BufStream, w: usize, be: bool) -> (r: Result<u32, Error>)
    requires
        1 <= w <= 4,
    ensures
        final(stream).data() == old(stream).data(),
        old(stream).position() + w <= old(stream).data().len() ==> (r matches Ok(v) && v == raw_sample(
            old(stream).data(),
            old(stream).position() as int,
            w as nat,
            be,
        ) && final(stream).position() == old(stream).position() + w),
        old(stream).position() + w > old(stream).data().len() ==> r is Err,
{
    let ghost d = stream.data();
    let ghost p = stream.position() as int;
    if w == 1 {
        let b = stream.read_u8()?;
        proof {
            lemma_le_val_single(d.subrange(p, p + 1));
        }
        Ok(b as u32)
    } else if w == 2 {
        if be {
            Ok(stream.read_be_u16()? as u32)
        } else {
            Ok(stream.read_u16()? as u32)
        }
    } else if w == 3 {
        if be {
            stream.read_be_u24()
        } else {
            stream.read_u24()
        }
    } else if be {
        stream.read_be_u32()
    } else {
        stream.read_u32()
    }
}

fn decode_sample(coding: PcmCoding, raw: u32, shift: u32) -> (r: i32)
    requires
        shift < 32,
        coding == PcmCoding::ALaw || coding == PcmCoding::MuLaw ==> raw < 256,
    ensures
        r == pcm_sample(coding, raw as nat, shift),
{
    match coding {
        PcmCoding::Signed => (raw << shift) as i32,
        PcmCoding::Unsigned => (raw << shift).wrapping_add(0x8000_0000) as i32,
        PcmCoding::ALaw => (alaw_to_linear(raw as u8) as i32) * 0x1_0000,
        PcmCoding::MuLaw => (mulaw_to_linear(raw as u8) as i32) * 0x1_0000,
    }
}

/// The number of coded bits per sample a decoder uses: the coded width if given, else the
/// decoded width, else 0.
pub open spec fn coded_width(params: CodecParameters) -> u32 {
    match params.bits_per_coded_sample {
        Some(w) => w,
        None => match params.bits_per_sample {
            Some(w) => w,
            None => 0,
        },
    }
}

/// The shift that moves an integer sample of `width` bits to the top of 32 bits.
pub open spec fn int_shift(width: u32) -> u32 {
    if 1 <= width <= 32 {
        (32 - width) as u32
    } else {
        0
    }
}

/// `PcmDecoder` implements a decoder for all raw PCM, and log-PCM codecs.
pub struct PcmDecoder {
    params: CodecParameters,
    buf: AudioBuffer<i32>,
}

impl PcmDecoder {
    /// The parameters the decoder was instantiated with.
    pub closed spec fn params_spec(&self) -> CodecParameters {
        self.params
    }

    /// The buffer decoded packets are written to.
    pub closed spec fn buffer_spec(&self) -> AudioBuffer<i32> {
        self.buf
    }

    /// The decoder is well formed.
    pub closed spec fn wf(&self) -> bool {
        self.buf.wf()
    }

    /// Returns the buffer holding the last decoded packet.
    pub fn buffer(&self) -> (r: &AudioBuffer<i32>)
        ensures
            *r == self.buffer_spec(),
    {
        &self.buf
    }

    /// Decodes the interleaved samples of a packet into the decoder's buffer, as many whole
    /// frames as the packet and the buffer hold.
    pub fn decode(&mut self, packet: &Packet) -> (r: Result<(), Error>)
        requires
            old(self).wf(),
        ensures
            final(self).wf(),
            final(self).params_spec() == old(self).params_spec(),
            final(self).buffer_spec().signal() == old(self).buffer_spec().signal(),
            final(self).buffer_spec().signal_capacity() == old(self).buffer_spec().signal_capacity(),
            ({
                let params = old(self).params_spec();
                let width = coded_width(params);
                let codec = params.codec;
                if width == 0 && codec != CodecType::PcmAlaw && codec != CodecType::PcmMulaw {
                    r == Err::<(), Error>(Error::DecodeError("pcm: unknown bits per (coded) sample."))
                } else {
                    match pcm_format(codec) {
                        None => r == Err::<(), Error>(Error::Unsupported("pcm: codec is unsupported.")),
                        Some((coding, w, be)) => {
                            let d = packet.bytes();
                            let nch = old(self).buffer_spec().signal_channels();
                            let cap = old(self).buffer_spec().signal_capacity();
                            let n = if nch == 0 {
                                cap
                            } else {
                                vstd::math::min(cap as int, (d.len() as int) / ((nch * w) as int)) as nat
                            };
                            let buf = final(self).buffer_spec();
                            &&& r is Ok
                            &&& buf.signal_frames() == n
                            &&& forall|ch: nat, i: int|
                                ch < nch && 0 <= i < n ==> #[trigger] buf.channel(ch)[i] == pcm_sample(
                                    coding,
                                    raw_sample(d, (i * nch + ch) * w, w, be),
                                    int_shift(width),
                                )
                        },
                    }
                }
            }),
    {
        proof {
            self.buf.lemma_shape();
        }
        let width = match self.params.bits_per_coded_sample {
            Some(w) => w,
            None => match self.params.bits_per_sample {
                Some(w) => w,
                None => 0,
            },
        };
        // Only A-Law and Mu-Law codecs have an implicit coded sample bit-width (8 bits), other PCM
        // codecs require atleast either bits_per_sample or bits_per_coded_sample to be declared.
        let is_g711 = match self.params.codec {
            CodecType::PcmAlaw => true,
            CodecType::PcmMulaw => true,
            _ => false,
        };
        if width == 0 && !is_g711 {
            return decode_error("pcm: unknown bits per (coded) sample.");
        }
        // Signed or unsigned integer PCM codecs must be shifted to expand the sample into the
        // entire i32 range.
        let shift: u32 = if 1 <= width && width <= 32 {
            32 - width
        } else {
            0
        };
        let (coding, w, be) = match pcm_format_of(self.params.codec) {
            Some(f) => f,
            None => return unsupported_error("pcm: codec is unsupported."),
        };
        assert(1 <= w <= 4);
        let data = packet.data();
        let ghost d = data@;
        let n_channels = self.buf.spec().channels.count();
        let cap = self.buf.capacity();
        proof {
            lemma2_to64();
            crate::audio::lemma_popcount_bound(self.buf.signal().channels.mask() as nat, 32);
            self.buf.lemma_shape();
            assert(n_channels * w <= 128) by (nonlinear_arith)
                requires
                    n_channels <= 32,
                    w <= 4,
            ;
            assert(n_channels > 0 ==> n_channels * w > 0) by (nonlinear_arith)
                requires
                    w >= 1,
            ;
        }
        // Whole frames of interleaved samples are read until the packet or the buffer runs out.
        let n: usize = if n_channels == 0 {
            cap
        } else {
            let avail = data.len() / (n_channels * w);
            if avail < cap {
                avail
            } else {
                cap
            }
        };
        proof {
            assert(n * n_channels <= cap * n_channels) by (nonlinear_arith)
                requires
                    n <= cap,
            ;
        }
        let total = n * n_channels;
        proof {
            if n_channels > 0 {
                let cw = (n_channels * w) as int;
                let q = (d.len() as int) / cw;
                vstd::arithmetic::div_mod::lemma_fundamental_div_mod(d.len() as int, cw);
                vstd::arithmetic::mul::lemma_mul_inequality(n as int, q, cw);
                vstd::arithmetic::mul::lemma_mul_is_associative(n as int, n_channels as int, w as int);
                vstd::arithmetic::mul::lemma_mul_is_commutative(q, cw);
                assert(n * n_channels * w <= d.len());
            }
            assert(total * w == n * n_channels * w) by (nonlinear_arith)
                requires
                    total == n * n_channels,
            ;
        }
        let mut stream = BufStream::new(data);
        let mut samples: Vec<i32> = Vec::new();
        let mut k: usize = 0;
        while k < total
            invariant
                stream.data() == d,
                d == packet.bytes(),
                1 <= w <= 4,
                total * w <= d.len(),
                k <= total,
                samples@.len() == k,
                stream.position() == k * w,
                coding == PcmCoding::ALaw || coding == PcmCoding::MuLaw ==> w == 1,
                shift < 32,
                forall|j: int| 0 <= j < k ==> #[trigger] samples@[j] == pcm_sample(
                    coding,
                    raw_sample(d, j * w, w as nat, be),
                    shift,
                ),
            decreases total - k,
        {
            proof {
                assert((k + 1) * w <= total * w) by (nonlinear_arith)
                    requires
                        k + 1 <= total,
                ;
                assert((k + 1) * w == k * w + w) by (nonlinear_arith);
            }
            let raw = match read_raw(&mut stream, w, be) {
                Ok(v) => v,
                Err(e) => return Err(e),
            };
            proof {
                if w == 1 {
                    lemma_le_val_single(d.subrange(k * w, k * w + 1));
                }
            }
            samples.push(decode_sample(coding, raw, shift));
            k = k + 1;
        }
        // Write the samples of each channel to its plane.
        self.buf.renew();
        self.buf.produce(n);
        let ghost nch = n_channels as int;
        let mut ch: usize = 0;
        while ch < n_channels
            invariant
                self.buf.wf(),
                self.buf.signal() == old(self).buf.signal(),
                self.buf.signal_capacity() == cap,
                self.buf.signal_frames() == n,
                self.buf.signal_channels() == n_channels,
                n_channels <= 32,
                nch == n_channels,
                n <= cap,
                total == n * n_channels,
                samples@.len() == total,
                ch <= n_channels,
                self.params == old(self).params,
                forall|c: nat, i: int|
                    c < ch && 0 <= i < n ==> #[trigger] self.buf.channel(c)[i] == samples@[i * nch + c],
            decreases n_channels - ch,
        {
            proof {
                self.buf.lemma_shape();
            }
            let mut column: Vec<i32> = Vec::new();
            let mut i: usize = 0;
            while i < n
                invariant
                    i <= n,
                    ch < n_channels,
                    nch == n_channels,
                    total == n * n_channels,
                    samples@.len() == total,
                    column@.len() == i,
                    forall|j: int| 0 <= j < i ==> #[trigger] column@[j] == samples@[j * nch + ch],
                decreases n - i,
            {
                proof {
                    assert(i * n_channels + ch < total) by (nonlinear_arith)
                        requires
                            i < n,
                            ch < n_channels,
                            total == n * n_channels,
                    ;
                }
                column.push(samples[i * n_channels + ch]);
                i = i + 1;
            }
            let ghost before = self.buf;
            write_plane(self.buf.chan_mut(ch as u8), column.as_slice());
            proof {
                assert forall|c: nat, j: int| c < ch + 1 && 0 <= j < n implies #[trigger] self.buf.channel(c)[j]
                    == samples@[j * nch + c] by {
                    if c < ch {
                        assert(self.buf.channel(c) == before.channel(c));
                    }
                }
            }
            ch = ch + 1;
        }
        proof {
            self.buf.lemma_shape();
            assert forall|c: nat, i: int| c < n_channels && 0 <= i < n implies #[trigger] self.buf.channel(c)[i]
                == pcm_sample(coding, raw_sample(d, (i * nch + c) * w, w as nat, be), shift) by {
                assert(i * nch + c < total) by (nonlinear_arith)
                    requires
                        0 <= i < n,
                        c < n_channels,
                        nch == n_channels,
                        total == n * n_channels,
                ;
            }
        }
        Ok(())
    }
}

/// What instantiating a PCM decoder with `params` and `options` returns: the error of the first
/// missing parameter, or a decoder for the stream the parameters describe, which is owed when
/// every parameter is there and its buffer fits in memory.
pub open spec fn pcm_new_outcome(
    params: CodecParameters,
    options: DecoderOptions,
    r: Result<PcmDecoder, Error>,
) -> bool {
    &&& params.max_frames_per_packet is None ==> r == Err::<PcmDecoder, Error>(
        Error::Unsupported("pcm: maximum frames per packet is required"),
    )
    &&& params.max_frames_per_packet is Some && params.sample_rate is None ==> r == Err::<
        PcmDecoder,
        Error,
    >(Error::Unsupported("pcm: sample rate is required"))
    &&& params.max_frames_per_packet is Some && params.sample_rate is Some && params.channels is None
        && params.channel_layout is None ==> r == Err::<PcmDecoder, Error>(
        Error::Unsupported("pcm: channels or channel_layout is required"),
    )
    &&& r matches Ok(dec) ==> {
        &&& dec.wf()
        &&& dec.params_spec() == params
        &&& dec.buffer_spec().signal().rate == params.sample_rate.unwrap()
        &&& dec.buffer_spec().signal().channels.mask() == match params.channels {
            Some(channels) => channels.mask(),
            None => crate::audio::layout_mask(params.channel_layout.unwrap()),
        }
        &&& dec.buffer_spec().signal_capacity() == params.max_frames_per_packet.unwrap()
        &&& dec.buffer_spec().signal_frames() == 0
    }
    &&& ({
        &&& params.max_frames_per_packet is Some
        &&& params.sample_rate is Some
        &&& (params.channels is Some || params.channel_layout is Some)
        &&& params.max_frames_per_packet.unwrap() <= usize::MAX
        &&& params.max_frames_per_packet.unwrap() * 32 <= usize::MAX
    }) ==> r is Ok
}

impl Decoder for PcmDecoder {
    open spec fn supported_codecs_spec() -> Seq<CodecDescriptor> {
        pcm_descriptors()
    }

    fn try_new(params: &CodecParameters, options: &DecoderOptions) -> (r: Result<Self, Error>)
        ensures
            pcm_new_outcome(*params, *options, r),
    {
        let frames = match params.max_frames_per_packet {
            Some(frames) => frames,
            None => return unsupported_error("pcm: maximum frames per packet is required"),
        };
        let rate = match params.sample_rate {
            Some(rate) => rate,
            None => return unsupported_error("pcm: sample rate is required"),
        };
        let spec = if let Some(channels) = params.channels {
            SignalSpec::new(rate, channels)
        } else if let Some(layout) = params.channel_layout {
            SignalSpec::new_with_layout(rate, layout)
        } else {
            return unsupported_error("pcm: channels or channel_layout is required");
        };
        let n_channels = spec.channels.count();
        proof {
            lemma2_to64();
            crate::audio::lemma_popcount_bound(spec.channels.mask() as nat, 32);
            if n_channels > 0 && frames * 32 <= usize::MAX {
                assert(frames * n_channels <= frames * 32) by (nonlinear_arith)
                    requires
                        n_channels <= 32,
                ;
                vstd::arithmetic::div_mod::lemma_div_is_ordered(
                    (frames * n_channels) as int,
                    usize::MAX as int,
                    n_channels as int,
                );
                vstd::arithmetic::div_mod::lemma_div_multiples_vanish(frames as int, n_channels as int);
                vstd::arithmetic::mul::lemma_mul_is_commutative(frames as int, n_channels as int);
            }
        }
        if frames > usize::MAX as u64 || (n_channels > 0 && frames > (usize::MAX / n_channels) as u64) {
            return unsupported_error("Audio buffer exceeds the addressable size.");
        }
        proof {
            if n_channels > 0 {
                assert(frames * n_channels <= usize::MAX) by (nonlinear_arith)
                    requires
                        n_channels > 0,
                        frames <= usize::MAX / n_channels,
                ;
            }
        }
        Ok(PcmDecoder { params: *params, buf: AudioBuffer::new(frames, &spec) })
    }

    fn supported_codecs() -> (r: Vec<CodecDescriptor>) {
        let mut v: Vec<CodecDescriptor> = Vec::new();
    v.push(CodecDescriptor { codec: CodecType::PcmS32le, short_name: "pcm_s32le", long_name: "PCM Signed 32-bit Little-Endian Interleaved", inst: DecoderKind::Pcm });
    v.push(CodecDescriptor { codec: CodecType::PcmS32be, short_name: "pcm_s32be", long_name: "PCM Signed 32-bit Big-Endian Interleaved", inst: DecoderKind::Pcm });
    v.push(CodecDescriptor { codec: CodecType::PcmS24le, short_name: "pcm_s24le", long_name: "PCM Signed 24-bit Little-Endian Interleaved", inst: DecoderKind::Pcm });
    v.push(CodecDescriptor { codec: CodecType::PcmS24be, short_name: "pcm_s24be", long_name: "PCM Signed 24-bit Big-Endian Interleaved", inst: DecoderKind::Pcm });
    v.push(CodecDescriptor { codec: CodecType::PcmS16le, short_name: "pcm_s16le", long_name: "PCM Signed 16-bit Little-Endian Interleaved", inst: DecoderKind::Pcm });
    v.push(CodecDescriptor { codec: CodecType::PcmS16be, short_name: "pcm_s16be", long_name: "PCM Signed 16-bit Big-Endian Interleaved", inst: DecoderKind::Pcm });
    v.push(CodecDescriptor { codec: CodecType::PcmS8, short_name: "pcm_s8", long_name: "PCM Signed 8-bit Interleaved", inst: DecoderKind::Pcm });
    v.push(CodecDescriptor { codec: CodecType::PcmU32le, short_name: "pcm_u32le", long_name: "PCM Unsigned 32-bit Little-Endian Interleaved", inst: DecoderKind::Pcm });
    v.push(CodecDescriptor { codec: CodecType::PcmU32be, short_name: "pcm_u32be", long_name: "PCM Unsigned 32-bit Big-Endian Interleaved", inst: DecoderKind::Pcm });
    v.push(CodecDescriptor { codec: CodecType::PcmU24le, short_name: "pcm_u24le", long_name: "PCM Unsigned 24-bit Little-Endian Interleaved", inst: DecoderKind::Pcm });
    v.push(CodecDescriptor { codec: CodecType::PcmU24be, short_name: "pcm_u24be", long_name: "PCM Unsigned 24-bit Big-Endian Interleaved", inst: DecoderKind::Pcm });
    v.push(CodecDescriptor { codec: CodecType::PcmU16le, short_name: "pcm_u16le", long_name: "PCM Unsigned 16-bit Little-Endian Interleaved", inst: DecoderKind::Pcm });
    v.push(CodecDescriptor { codec: CodecType::PcmU16be, short_name: "pcm_u16be", long_name: "PCM Unsigned 16-bit Big-Endian Interleaved", inst: DecoderKind::Pcm });
    v.push(CodecDescriptor { codec: CodecType::PcmU8, short_name: "pcm_u8", long_name: "PCM Unsigned 8-bit Interleaved", inst: DecoderKind::Pcm });
    v.push(CodecDescriptor { codec: CodecType::PcmF32le, short_name: "pcm_f32le", long_name: "PCM 32-bit Little-Endian Floating Point Interleaved", inst: DecoderKind::Pcm });
    v.push(CodecDescriptor { codec: CodecType::PcmF32be, short_name: "pcm_f32be", long_name: "PCM 32-bit Big-Endian Floating Point Interleaved", inst: DecoderKind::Pcm });
    v.push(CodecDescriptor { codec: CodecType::PcmF64le, short_name: "pcm_f64le", long_name: "PCM 64-bit Little-Endian Floating Point Interleaved", inst: DecoderKind::Pcm });
    v.push(CodecDescriptor { codec: CodecType::PcmF64be, short_name: "pcm_f64be", long_name: "PCM 64-bit Big-Endian Floating Point Interleaved", inst: DecoderKind::Pcm });
    v.push(CodecDescriptor { codec: CodecType::PcmAlaw, short_name: "pcm_alaw", long_name: "PCM A-law", inst: DecoderKind::Pcm });
    v.push(CodecDescriptor { codec: CodecType::PcmMulaw, short_name: "pcm_mulaw", long_name: "PCM Mu-law", inst: DecoderKind::Pcm });
        assert(v@ =~= pcm_descriptors());
        v
    }

    fn codec_params(&self) -> (r: &CodecParameters)
        ensures
            *r == self.params_spec(),
    {
        &self.params
    }

    fn close(&mut self) {
    }
}

} // verus!
