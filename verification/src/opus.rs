//! Opus packet framing and the Ogg Opus identification header.

use vstd::prelude::*;
use crate::errors::{Error, decode_error};
use crate::io::{BufStream, eof, le_val};
use crate::audio::Channels;
use crate::codecs::{CodecParameters, CodecType};

verus! {

/// The table-of-contents byte of an Opus packet.
#[derive(Copy, Clone, Debug, PartialEq, Eq, Structural)]
pub struct Toc {
    /// Configuration number.
    pub config: u8,
    /// Is stream stereo?
    pub is_stereo: bool,
    /// Number of coded frames.
    pub code: u8,
}

/// The frame size in microseconds of each configuration, from RFC 6716 Table 2.
pub open spec fn frame_sizes_us() -> Seq<u32> {
    seq![
        10_000u32, 20_000, 40_000, 60_000,
        10_000, 20_000, 40_000, 60_000,
        10_000, 20_000, 40_000, 60_000,
        10_000, 20_000, 10_000, 20_000,
        2_500, 5_000, 10_000, 20_000,
        2_500, 5_000, 10_000, 20_000,
        2_500, 5_000, 10_000, 20_000,
        2_500, 5_000, 10_000, 20_000,
    ]
}

impl Toc {
    /// Decodes a table-of-contents byte: the configuration in the top five bits, the stereo flag,
    /// then the frame count code in the low two bits.
    pub fn parse(byte: u8) -> (r: Self)
        ensures
            r.config == byte / 8,
            r.is_stereo == ((byte / 4) % 2 == 1),
            r.code == byte % 4,
    {
        let config = (byte & 0xf8) >> 3;
        let is_stereo = (byte & 0x04) != 0;
        let code = byte & 0x3;
        proof {
            assert((byte & 0xf8) >> 3 == byte / 8 && ((byte & 0x04) != 0) == ((byte / 4) % 2 == 1)
                && byte & 0x3 == byte % 4) by (bit_vector);
        }
        Toc { config, is_stereo, code }
    }

    /// The frame size in microseconds.
    pub fn frame_size_us(&self) -> (r: u32)
        requires
            self.config < 32,
        ensures
            r == frame_sizes_us()[self.config as int],
            2_500 <= r <= 60_000,
    {
        // Derived from RFC 6716 Table 2.
        let c = self.config;
        if c < 12 {
            match c % 4 {
                0 => 10_000,
                1 => 20_000,
                2 => 40_000,
                _ => 60_000,
            }
        } else if c < 16 {
            if c % 2 == 0 {
                10_000
            } else {
                20_000
            }
        } else {
            match c % 4 {
                0 => 2_500,
                1 => 5_000,
                2 => 10_000,
                _ => 20_000,
            }
        }
    }
}

/// The lengths of the frames of a code 1 packet body of `len` bytes: two frames of equal size.
pub open spec fn code1_frames(len: nat) -> Result<Seq<nat>, Error> {
    if len % 2 != 0 {
        Err(Error::DecodeError("invalid code1 packet size"))
    } else {
        Ok(seq![len / 2, len / 2])
    }
}

/// The lengths of the frames of a code 2 packet body `b`: two frames, the size of the first coded
/// in one or two bytes.
pub open spec fn code2_frames(b: Seq<u8>) -> Result<Seq<nat>, Error> {
    if b[0] <= 251 {
        if b.len() - 1 < b[0] {
            Err(Error::DecodeError("invalid code2 frame size"))
        } else {
            let len1 = (b.len() - 1 - b[0]) as nat;
            Ok(seq![b[0] as nat, len1])
        }
    } else {
        let len0 = 4 * b[1] + b[0];
        if b.len() - 2 < len0 {
            Err(Error::DecodeError("invalid code2 frame size"))
        } else {
            let len1 = (b.len() - 2 - len0) as nat;
            Ok(seq![len0 as nat, len1])
        }
    }
}

fn read_code1_packet(packet_buf: &[u8]) -> (r: Result<Vec<usize>, Error>)
    ensures
        match code1_frames(packet_buf@.len()) {
            Ok(lens) => r matches Ok(v) && v@.map_values(|x: usize| x as nat) == lens,
            Err(e) => r == Err::<Vec<usize>, Error>(e),
        },
{
    let len = packet_buf.len();
    // The packet size must be even.
    if len % 2 != 0 {
        return decode_error("invalid code1 packet size");
    }
    let v = vec![len / 2, len / 2];
    assert(v@.map_values(|x: usize| x as nat) =~= seq![(len / 2) as nat, (len / 2) as nat]);
    Ok(v)
}

fn read_code2_packet(packet_buf: &[u8]) -> (r: Result<Vec<usize>, Error>)
    requires
        packet_buf@.len() >= 1,
        packet_buf@[0] > 251 ==> packet_buf@.len() >= 2,
    ensures
        match code2_frames(packet_buf@) {
            Ok(lens) => r matches Ok(v) && v@.map_values(|x: usize| x as nat) == lens,
            Err(e) => r == Err::<Vec<usize>, Error>(e),
        },
{
    let len = packet_buf.len();
    let b0 = packet_buf[0] as usize;
    let v = if b0 <= 251 {
        if len - 1 < b0 {
            return decode_error("invalid code2 frame size");
        }
        let len1 = len - 1 - b0;
        vec![b0, len1]
    } else {
        let len0 = 4 * (packet_buf[1] as usize) + b0;
        if len - 2 < len0 {
            return decode_error("invalid code2 frame size");
        }
        let len1 = len - 2 - len0;
        vec![len0, len1]
    };
    assert(v@.map_values(|x: usize| x as nat) =~= code2_frames(packet_buf@).unwrap());
    Ok(v)
}

/// The number of padding bytes coded from byte `p` of `d` on, where each 255 byte adds 254 and
/// the first other byte adds itself and ends the count, and the position after the count; `None`
/// if the data ends first.
pub open spec fn padding_run(d: Seq<u8>, p: int) -> Option<(nat, int)>
    decreases d.len() - p,
{
    if p < 0 || p >= d.len() {
        None
    } else if d[p] == 255 {
        match padding_run(d, p + 1) {
            Some((s, e)) => Some((254 + s, e)),
            None => None,
        }
    } else {
        Some((d[p] as nat, p + 1))
    }
}

/// The lengths of `n` variable frames coded from byte `p` of `d` on, each in one byte, or in two
/// bytes if the first is 252 or more, and the position after them; `None` if the data ends first.
pub open spec fn vbr_lens(d: Seq<u8>, p: int, n: nat) -> Option<(Seq<nat>, int)>
    decreases n,
{
    if n == 0 {
        Some((seq![], p))
    } else {
        match vbr_lens(d, p, (n - 1) as nat) {
            None => None,
            Some((s, q)) => if q < 0 || q >= d.len() {
                None
            } else if d[q] <= 251 {
                Some((s.push(d[q] as nat), q + 1))
            } else if q + 1 >= d.len() {
                None
            } else {
                Some((s.push((d[q] + 4 * d[q + 1]) as nat), q + 2))
            },
        }
    }
}

/// The lengths of the frames of a code 3 packet body `b` with configuration `config`: a frame
/// count byte (with VBR and padding flags), the padding length, then for VBR packets each frame's
/// length; other packets split what remains after the padding evenly.
pub open spec fn code3_frames(b: Seq<u8>, config: nat) -> Result<Seq<nat>, Error> {
    if b.len() < 1 {
        Err(eof())
    } else {
        let fc = b[0];
        let has_padding = (fc / 64) % 2 == 1;
        let pad = if has_padding {
            padding_run(b, 1)
        } else {
            Some((0nat, 1int))
        };
        match pad {
            None => Err(eof()),
            Some((padding, p)) => {
                let padding_len = padding % 0x1_0000;
                let n = fc % 64;
                if n == 0 {
                    Err(Error::DecodeError("code3 frame count is 0"))
                } else if n * frame_sizes_us()[config as int] > 120_000 {
                    Err(Error::DecodeError("code3 total frame length exceeds 120ms"))
                } else if fc >= 128 {
                    match vbr_lens(b, p, n as nat) {
                        None => Err(eof()),
                        Some((lens, _)) => Ok(lens),
                    }
                } else if b.len() - p < padding_len {
                    Err(Error::DecodeError("code3 padding exceeds the packet"))
                } else {
                    Ok(Seq::new(n as nat, |i: int| ((b.len() - p - padding_len) / (n as int)) as nat))
                }
            },
        }
    }
}

proof fn lemma_padding_run_step(d: Seq<u8>, p: int)
    requires
        0 <= p < d.len(),
        d[p] == 255,
    ensures
        padding_run(d, p) == match padding_run(d, p + 1) {
            Some((s, e)) => Some((254 + s, e)),
            None => None::<(nat, int)>,
        },
{
}

fn read_padding(reader: &mut BufStream) -> (r: Result<u16, Error>)
    ensures
        final(reader).data() == old(reader).data(),
        match padding_run(old(reader).data(), old(reader).position() as int) {
            Some((s, e)) => r == Ok::<u16, Error>((s % 0x1_0000) as u16) && final(reader).position() == e,
            None => r == Err::<u16, Error>(eof()),
        },
{
    let ghost d = reader.data();
    let ghost p0 = reader.position() as int;
    // The number of padding bytes is encoded using 1 or more bytes. If the read byte is 255, then
    // add 254 to the running total and read another byte. If the read byte is < 255, then add it
    // to the running total and exit.
    let mut padding: u16 = 0;
    let ghost mut k: nat = 0;
    loop
        invariant_except_break
            reader.data() == d,
            d == old(reader).data(),
            p0 == old(reader).position(),
            reader.position() == p0 + k,
            padding == (254 * k) % 0x1_0000,
            padding_run(d, p0) == match padding_run(d, reader.position() as int) {
                Some((s, e)) => Some(((254 * k + s) as nat, e)),
                None => None::<(nat, int)>,
            },
        ensures
            reader.data() == d,
            match padding_run(d, p0) {
                Some((s, e)) => padding == s % 0x1_0000 && reader.position() == e,
                None => false,
            },
        decreases d.len() - reader.position(),
    {
        proof {
            reader.lemma_position_bound();
        }
        let ghost pos = reader.position() as int;
        let b = reader.read_u8()?;
        if b == 255 {
            proof {
                lemma_padding_run_step(d, pos);
                k = k + 1;
                assert((padding as int + 254) % 0x1_0000 == (254 * k) % 0x1_0000) by (nonlinear_arith)
                    requires
                        padding == (254 * (k - 1)) % 0x1_0000,
                ;
            }
            padding = padding.wrapping_add(254);
        } else {
            proof {
                assert((padding as int + b) % 0x1_0000 == (254 * k + b) % 0x1_0000) by (nonlinear_arith)
                    requires
                        padding == (254 * k) % 0x1_0000,
                ;
            }
            padding = padding.wrapping_add(b as u16);
            break;
        }
    }
    Ok(padding)
}

proof fn lemma_vbr_lens_err(d: Seq<u8>, p: int, k: nat, n: nat)
    requires
        k <= n,
        vbr_lens(d, p, k) is None,
    ensures
        vbr_lens(d, p, n) is None,
    decreases n - k,
{
    if k < n {
        lemma_vbr_lens_err(d, p, k + 1, n);
    }
}

fn read_code3_packet(toc: Toc, packet_buf: &[u8]) -> (r: Result<Vec<usize>, Error>)
    requires
        toc.config < 32,
    ensures
        match code3_frames(packet_buf@, toc.config as nat) {
            Ok(lens) => r matches Ok(v) && v@.map_values(|x: usize| x as nat) == lens,
            Err(e) => r == Err::<Vec<usize>, Error>(e),
        },
{
    let ghost d = packet_buf@;
    let mut reader = BufStream::new(packet_buf);
    let frame_count_byte = reader.read_u8()?;
    proof {
        assert((frame_count_byte & 0x40 != 0) == ((frame_count_byte / 64) % 2 == 1)
            && frame_count_byte & 0x3f == frame_count_byte % 64
            && (frame_count_byte & 0x80 != 0) == (frame_count_byte >= 128)) by (bit_vector);
    }
    let padding_len = if (frame_count_byte & 0x40) != 0 {
        read_padding(&mut reader)?
    } else {
        0
    };
    let is_vbr = (frame_count_byte & 0x80) != 0;
    let n_frames = frame_count_byte & 0x3f;
    // There must be atleast one frame.
    if n_frames == 0 {
        return decode_error("code3 frame count is 0");
    }
    // The audio duration of a packet must not exceed 120ms.
    if (n_frames as u32) * toc.frame_size_us() > 120_000 {
        return decode_error("code3 total frame length exceeds 120ms");
    }
    let ghost p = reader.position() as int;
    proof {
        reader.lemma_position_bound();
    }
    let mut lens: Vec<usize> = Vec::new();
    // VBR packets have the frame lengths recorded individually.
    if is_vbr {
        assert(code3_frames(d, toc.config as nat) == match vbr_lens(d, p, n_frames as nat) {
            None => Err(eof()),
            Some((lens, _)) => Ok::<Seq<nat>, Error>(lens),
        });
        let mut i: u8 = 0;
        while i < n_frames
            invariant
                reader.data() == d,
                d == packet_buf@,
                code3_frames(d, toc.config as nat) == match vbr_lens(d, p, n_frames as nat) {
                    None => Err(eof()),
                    Some((lens, _)) => Ok::<Seq<nat>, Error>(lens),
                },
                i <= n_frames,
                vbr_lens(d, p, i as nat) == Some((lens@.map_values(|x: usize| x as nat), reader.position() as int)),
            decreases n_frames - i,
        {
            let ghost before = lens@;
            let byte = match reader.read_u8() {
                Ok(b) => b,
                Err(e) => {
                    proof {
                        reader.lemma_position_bound();
                        lemma_vbr_lens_err(d, p, (i + 1) as nat, n_frames as nat);
                    }
                    return Err(e);
                },
            };
            let frame_len: usize = if byte <= 251 {
                byte as usize
            } else {
                match reader.read_u8() {
                    Ok(b2) => byte as usize + 4 * (b2 as usize),
                    Err(e) => {
                        proof {
                            lemma_vbr_lens_err(d, p, (i + 1) as nat, n_frames as nat);
                        }
                        return Err(e);
                    },
                }
            };
            lens.push(frame_len);
            proof {
                assert(lens@.map_values(|x: usize| x as nat) =~= before.map_values(|x: usize| x as nat).push(
                    frame_len as nat,
                ));
            }
            i = i + 1;
        }
    } else {
        let remaining = packet_buf.len() - reader.pos();
        if remaining < padding_len as usize {
            return decode_error("code3 padding exceeds the packet");
        }
        let frame_len = (remaining - padding_len as usize) / (n_frames as usize);
        let mut i: u8 = 0;
        while i < n_frames
            invariant
                i <= n_frames,
                lens@.map_values(|x: usize| x as nat) == Seq::new(i as nat, |j: int| frame_len as nat),
            decreases n_frames - i,
        {
            let ghost before = lens@;
            lens.push(frame_len);
            proof {
                assert(lens@.map_values(|x: usize| x as nat) =~= before.map_values(|x: usize| x as nat).push(
                    frame_len as nat,
                ));
                assert(lens@.map_values(|x: usize| x as nat) =~= Seq::new((i + 1) as nat, |j: int| frame_len as nat));
            }
            i = i + 1;
        }
    }
    Ok(lens)
}

/// The lengths of the frames of an Opus packet, from its table-of-contents byte and its body.
pub open spec fn packet_frames(d: Seq<u8>) -> Result<Seq<nat>, Error> {
    let code = d[0] % 4;
    let body = d.skip(1);
    if code == 0 {
        Ok(seq![body.len()])
    } else if code == 1 {
        code1_frames(body.len())
    } else if code == 2 {
        code2_frames(body)
    } else {
        code3_frames(body, (d[0] / 8) as nat)
    }
}

/// Reads an Opus packet and checks that its frames are consistent with its length.
pub fn read_packet(packet_buf: &[u8]) -> (r: Result<(), Error>)
    requires
        packet_buf@.len() >= 1,
        packet_buf@[0] % 4 == 2 ==> packet_buf@.len() >= 2 && (packet_buf@[1] > 251
            ==> packet_buf@.len() >= 3),
    ensures
        match packet_frames(packet_buf@) {
            Ok(_) => r is Ok,
            Err(e) => r == Err::<(), Error>(e),
        },
{
    // Read TOC.
    let toc = Toc::parse(packet_buf[0]);
    let (_toc_byte, body) = packet_buf.split_at(1);
    assert(body@ =~= packet_buf@.skip(1));
    match toc.code {
        0 => {},
        1 => {
            read_code1_packet(body)?;
        },
        2 => {
            read_code2_packet(body)?;
        },
        _ => {
            read_code3_packet(toc, body)?;
        },
    }
    Ok(())
}

/// The identification header of an Ogg Opus stream.
#[derive(Copy, Clone, Debug)]
pub struct IdentHeader {
    pub n_channels: u8,
    pub pre_skip: u16,
    pub in_sample_rate: u32,
    pub gain: u16,
    pub mapping_family: u8,
    pub stream_count: u8,
    pub coupled_count: u8,
    pub mapping: [u8; 8],
}

/// The magic signature an Ogg Opus identification header starts with: `OpusHead`.
pub open spec fn opus_magic() -> Seq<u8> {
    seq![0x4fu8, 0x70, 0x75, 0x73, 0x48, 0x65, 0x61, 0x64]
}

/// Where reading an identification header from `d` stops, or the error it fails with.
pub open spec fn ident_status(d: Seq<u8>) -> Result<(), Error> {
    if d.len() < 8 {
        Err(eof())
    } else if d.subrange(0, 8) != opus_magic() {
        Err(Error::DecodeError("incorrect opus signature"))
    } else if d.len() < 10 {
        Err(eof())
    } else if d[9] == 0 {
        Err(Error::DecodeError("channel count is 0"))
    } else if d.len() < 19 {
        Err(eof())
    } else if d[18] == 0 {
        if d[9] > 2 {
            Err(Error::DecodeError("invalid number of channels"))
        } else {
            Ok(())
        }
    } else if d[18] == 1 {
        if d[9] > 8 {
            Err(Error::DecodeError("invalid number of channels"))
        } else if d.len() < 21 + d[9] {
            Err(eof())
        } else {
            Ok(())
        }
    } else {
        Err(Error::DecodeError("reserved mapping family"))
    }
}

/// The fields of an identification header read from `d`.
pub open spec fn ident_fields(h: IdentHeader, d: Seq<u8>) -> bool {
    let n = d[9];
    &&& h.n_channels == n
    &&& h.pre_skip == le_val(d.subrange(10, 12))
    &&& h.in_sample_rate == le_val(d.subrange(12, 16))
    &&& h.gain == le_val(d.subrange(16, 18))
    &&& h.mapping_family == d[18]
    &&& if d[18] == 0 {
        &&& h.stream_count == 1
        &&& h.coupled_count == n - 1
        &&& h.mapping@ == Seq::new(8, |i: int| 0u8)
    } else {
        &&& h.stream_count == d[19]
        &&& h.coupled_count == d[20]
        &&& h.mapping@ == Seq::new(8, |i: int| if i < n { d[21 + i] } else { 0u8 })
    }
}

impl IdentHeader {
    /// Parses the identification header of an Ogg Opus stream.
    pub fn parse(buf: &[u8]) -> (r: Result<IdentHeader, Error>)
        ensures
            match ident_status(buf@) {
                Ok(_) => r matches Ok(h) && ident_fields(h, buf@),
                Err(e) => r == Err::<IdentHeader, Error>(e),
            },
    {
        let ghost d = buf@;
        let mut reader = BufStream::new(buf);
        // The first 8 bytes are the magic signature ASCII bytes.
        let mut magic = [0u8; 8];
        reader.read_buf_bytes(&mut magic)?;
        let expected: [u8; 8] = [0x4f, 0x70, 0x75, 0x73, 0x48, 0x65, 0x61, 0x64];
        let mut k: usize = 0;
        while k < 8
            invariant
                k <= 8,
                d == buf@,
                d.len() >= 8,
                magic@ == d.subrange(0, 8),
                expected@ == opus_magic(),
                forall|j: int| 0 <= j < k ==> magic@[j] == expected@[j],
            decreases 8 - k,
        {
            if magic[k] != expected[k] {
                proof {
                    assert(d.subrange(0, 8)[k as int] != opus_magic()[k as int]);
                }
                return decode_error("incorrect opus signature");
            }
            k = k + 1;
        }
        assert(magic@ =~= opus_magic());
        // The next byte is the OGG Opus encapsulation version.
        let _version = reader.read_byte()?;
        // The next byte is the number of channels and must not be 0.
        let n_channels = reader.read_byte()?;
        if n_channels == 0 {
            return decode_error("channel count is 0");
        }
        // The next 16-bit integer is the pre-skip padding.
        let pre_skip = reader.read_u16()?;
        // The next 32-bit integer is the sample rate of the original audio.
        let in_sample_rate = reader.read_u32()?;
        // Next, the 16-bit gain value.
        let gain = reader.read_u16()?;
        // The next byte indicates the channel mapping. Most of these values are reserved.
        let mapping_family = reader.read_byte()?;
        let (stream_count, coupled_count) = match mapping_family {
            // RTP mapping. Supports up-to 2 channels.
            0 => {
                if n_channels > 2 {
                    return decode_error("invalid number of channels");
                }
                (1u8, n_channels - 1)
            },
            // Vorbis mapping. Supports 1 to 8 channels.
            1 => {
                if n_channels > 8 {
                    return decode_error("invalid number of channels");
                }
                let s = reader.read_u8()?;
                let c = reader.read_u8()?;
                (s, c)
            },
            _ => return decode_error("reserved mapping family"),
        };
        let mut mapping = [0u8; 8];
        assert(forall|j: int| 0 <= j < 8 ==> #[trigger] mapping@[j] == 0);
        // The channel mapping table is only read if not using the RTP mapping.
        if mapping_family != 0 {
            let mut i: usize = 0;
            while i < n_channels as usize
                invariant
                    reader.data() == d,
                    d == buf@,
                    n_channels <= 8,
                    n_channels == d[9],
                    mapping_family == d[18],
                    mapping_family == 1,
                    d.len() >= 21,
                    d.subrange(0, 8) == opus_magic(),
                    i <= n_channels,
                    reader.position() == 21 + i,
                    forall|j: int| 0 <= j < i ==> #[trigger] mapping@[j] == d[21 + j],
                    forall|j: int| i <= j < 8 ==> #[trigger] mapping@[j] == 0,
                decreases n_channels - i,
            {
                let m = match reader.read_u8() {
                    Ok(m) => m,
                    Err(e) => {
                        proof {
                            reader.lemma_position_bound();
                        }
                        return Err(e);
                    },
                };
                mapping[i] = m;
                i = i + 1;
            }
            proof {
                reader.lemma_position_bound();
            }
        }
        let h = IdentHeader {
            n_channels,
            pre_skip,
            in_sample_rate,
            gain,
            mapping_family,
            stream_count,
            coupled_count,
            mapping,
        };
        assert(h.pre_skip == le_val(d.subrange(10, 12)));
        assert(h.in_sample_rate == le_val(d.subrange(12, 16)));
        assert(h.gain == le_val(d.subrange(16, 18)));
        assert(h.mapping@ =~= if d[18] == 0 {
            Seq::new(8, |i: int| 0u8)
        } else {
            Seq::new(8, |i: int| if i < n_channels { d[21 + i] } else { 0u8 })
        });
        Ok(h)
    }
}

/// The channel mask of an Ogg Opus stream of `count` channels under channel mapping family
/// `family`, or None where the mapping is reserved or the count is not supported by it.
pub open spec fn opus_channel_mask(family: u8, count: u8) -> Option<u32> {
    if family == 0 {
        if count == 1 {
            Some(0x1u32)
        } else if count == 2 {
            Some(0x3u32)
        } else {
            None
        }
    } else if family == 1 {
        if count == 1 {
            Some(0x1u32)
        } else if count == 2 {
            Some(0x3u32)
        } else if count == 3 {
            Some(0x7u32)
        } else if count == 4 {
            Some(0x2bu32)
        } else if count == 5 {
            Some(0x2fu32)
        } else if count == 6 {
            Some(0x6fu32)
        } else if count == 7 {
            Some(0x6_0057u32)
        } else if count == 8 {
            Some(0x6_006fu32)
        } else {
            None
        }
    } else {
        None
    }
}

/// What the identification packet `d` of an Ogg Opus stream gives: the pre-skip and the channel
/// mask; or None if `d` is not one: shorter than 19 bytes, without the `OpusHead` signature, of a
/// mapping version above 15, with no channel, or of an unsupported channel mapping.
pub open spec fn opus_ident(d: Seq<u8>) -> Option<(u16, u32)> {
    if d.len() < 19 || d.subrange(0, 8) != opus_magic() || d[8] > 0x0f || d[9] == 0 {
        None
    } else {
        match opus_channel_mask(d[18], d[9]) {
            None => None,
            Some(m) => Some((le_val(d.subrange(10, 12)) as u16, m)),
        }
    }
}

/// The channel mask of an Ogg Opus stream; see `opus_channel_mask`. In mapping family 1 the
/// channels follow the Vorbis order: front left, centre, right, side left and right, rear left,
/// centre and right, then the LFE.
fn opus_channels(family: u8, count: u8) -> (r: Option<u32>)
    ensures
        r == opus_channel_mask(family, count),
{
    match family {
        // The RTP mapping: mono or stereo.
        0 => match count {
            1 => Some(0x1),
            2 => Some(0x3),
            _ => None,
        },
        // The Vorbis mapping.
        1 => match count {
            1 => Some(0x1),
            2 => Some(0x3),
            3 => Some(0x7),
            4 => Some(0x2b),
            5 => Some(0x2f),
            6 => Some(0x6f),
            7 => Some(0x6_0057),
            8 => Some(0x6_006f),
            _ => None,
        },
        // Reserved, and not supported for playback.
        _ => None,
    }
}

/// Detects an Ogg Opus stream from its first packet and returns the stream's codec parameters:
/// the Opus codec at 48kHz, the pre-skip as leading padding, and the channels of the channel
/// mapping; or None if the packet is not an Opus identification packet.
pub fn detect_opus(buf: &[u8]) -> (r: Result<Option<CodecParameters>, Error>)
    ensures
        match opus_ident(buf@) {
            None => r == Ok::<Option<CodecParameters>, Error>(None),
            Some((pre_skip, mask)) => r matches Ok(Some(p)) && {
                &&& p.codec == CodecType::Opus
                &&& p.sample_rate == Some(48_000u32)
                &&& p.leading_padding == Some(pre_skip as u32)
                &&& p.channels matches Some(c) && c.mask() == mask
                &&& p.n_frames is None && p.sample_format is None && p.bits_per_sample is None
                &&& p.bits_per_coded_sample is None && p.channel_layout is None
                &&& p.trailing_padding is None && p.max_frames_per_packet is None
                &&& !p.packet_data_integrity
            },
        },
{
    // The identification packet for Opus must be a minimum size.
    if buf.len() < 19 {
        return Ok(None);
    }
    // The first 8 bytes are the magic signature ASCII bytes.
    let expected: [u8; 8] = [0x4f, 0x70, 0x75, 0x73, 0x48, 0x65, 0x61, 0x64];
    let mut k: usize = 0;
    while k < 8
        invariant
            k <= 8,
            buf@.len() >= 19,
            expected@ == opus_magic(),
            forall|j: int| 0 <= j < k ==> buf@[j] == expected@[j],
        decreases 8 - k,
    {
        if buf[k] != expected[k] {
            assert(buf@.subrange(0, 8)[k as int] != opus_magic()[k as int]);
            return Ok(None);
        }
        k = k + 1;
    }
    assert(buf@.subrange(0, 8) =~= opus_magic());
    // The next byte is the encapsulation version: a major and a minor version in the upper and
    // lower 4 bits.
    if buf[8] > 0x0f {
        return Ok(None);
    }
    // The number of channels must not be 0.
    let channel_count = buf[9];
    if channel_count == 0 {
        return Ok(None);
    }
    // The pre-skip padding: the number of samples at 48kHz to subtract from the granule position
    // to obtain the sample position. Then come the original sample rate and the gain, unused.
    let pre_skip = buf[10] as u16 + 256 * (buf[11] as u16);
    proof {
        reveal_with_fuel(le_val, 3);
        assert(buf@.subrange(10, 12).drop_first() =~= seq![buf@[11]]);
        assert(buf@.subrange(10, 12).drop_first().drop_first() =~= Seq::<u8>::empty());
    }
    let mask = match opus_channels(buf[18], channel_count) {
        Some(m) => m,
        None => return Ok(None),
    };
    let mut codec_params = CodecParameters::new();
    codec_params.for_codec(CodecType::Opus);
    codec_params.with_leading_padding(pre_skip as u32);
    codec_params.with_sample_rate(48_000);
    codec_params.with_channels(Channels::from_bits_truncate(mask));
    Ok(Some(codec_params))
}

} // verus!
