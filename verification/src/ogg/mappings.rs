//! Mappings of codecs into Ogg: recognising a stream's codec from its first packet, and sorting
//! its later packets into headers and bitstream.

use vstd::prelude::*;
use crate::codecs::{CodecParameters, CodecType, CODEC_TYPE_FLAC};
use crate::errors::{Error, decode_error};
use crate::flac::metadata::{
    MetadataBlockHeader, MetadataBlockType, StreamInfo, block_type_of, stream_info_error, be16,
    flac_channel_mask, read_picture_block, picture_layout,
};
use crate::io::{BufStream, bits_model::bits_val};
use crate::opus::{detect_opus, opus_ident};

verus! {

/// The size of the first packet of an Ogg FLAC stream.
pub const OGG_FLAC_HEADER_PACKET_SIZE: usize = 51;

/// The position, in bits, of the packed fields of the STREAMINFO block in that packet.
pub open spec fn ogg_flac_info_bits() -> int {
    216int
}

/// Whether `b` is the identification packet of an Ogg FLAC stream: 51 bytes of the packet type
/// 0x7f, "FLAC", the mapping's major version 1, a minor version, a count of header packets,
/// "fLaC", then the header of a STREAMINFO block.
pub open spec fn ogg_flac_ident(b: Seq<u8>) -> bool {
    &&& b.len() == OGG_FLAC_HEADER_PACKET_SIZE
    &&& b[0] == 0x7f
    &&& b[1] == 0x46 && b[2] == 0x4c && b[3] == 0x41 && b[4] == 0x43
    &&& b[5] == 1
    &&& b[9] == 0x66 && b[10] == 0x4c && b[11] == 0x61 && b[12] == 0x43
    &&& block_type_of((b[13] % 0x80) as u8) == MetadataBlockType::StreamInfo
}

/// Detects an Ogg FLAC stream from its first packet and returns the stream's codec parameters,
/// read from its STREAMINFO block: FLAC, its sample rate, bits per sample, channels, largest
/// block as the largest packet, its length if known, and packets that can be checked; or None
/// if the packet is not an Ogg FLAC identification packet. A STREAMINFO block that cannot be
/// read is an error.
pub fn detect_flac(buf: &[u8]) -> (r: Result<Option<CodecParameters>, Error>)
    ensures
        !ogg_flac_ident(buf@) ==> r == Ok::<Option<CodecParameters>, Error>(None),
        ogg_flac_ident(buf@) ==> match stream_info_error(buf@, 17) {
            Some(e) => r == Err::<Option<CodecParameters>, Error>(e),
            None => r matches Ok(Some(p)) && {
                let d = buf@;
                let b = ogg_flac_info_bits();
                let n = bits_val(d, b + 28, 36);
                &&& p.codec == CODEC_TYPE_FLAC
                &&& p.sample_rate == Some(bits_val(d, b, 20) as u32)
                &&& p.bits_per_sample == Some((bits_val(d, b + 23, 5) + 1) as u32)
                &&& p.max_frames_per_packet == Some(be16(d, 19) as u64)
                &&& p.channels matches Some(c) && c.mask() == flac_channel_mask(
                    (bits_val(d, b + 20, 3) + 1) as u32,
                )
                &&& p.packet_data_integrity
                &&& p.n_frames == if n == 0 {
                    None
                } else {
                    Some(n as u64)
                }
                &&& p.sample_format is None && p.bits_per_coded_sample is None
                &&& p.channel_layout is None && p.leading_padding is None
                &&& p.trailing_padding is None
            },
        },
{
    // The packet shall be exactly the expected length.
    if buf.len() != OGG_FLAC_HEADER_PACKET_SIZE {
        return Ok(None);
    }
    // The packet type 0x7f, the signature "FLAC" and the major version 1 of the mapping; the
    // minor version and the number of header packets are not needed.
    if buf[0] != 0x7f || buf[1] != 0x46 || buf[2] != 0x4c || buf[3] != 0x41 || buf[4] != 0x43 {
        return Ok(None);
    }
    if buf[5] != 1 {
        return Ok(None);
    }
    // The native FLAC signature "fLaC".
    if buf[9] != 0x66 || buf[10] != 0x4c || buf[11] != 0x61 || buf[12] != 0x43 {
        return Ok(None);
    }
    // The stream information block follows as a native FLAC metadata block.
    let mut reader = BufStream::new(buf);
    reader.ignore_bytes(13)?;
    let header = MetadataBlockHeader::read(&mut reader)?;
    match header.block_type {
        MetadataBlockType::StreamInfo => {},
        _ => return Ok(None),
    }
    let stream_info = StreamInfo::read(&mut reader)?;
    proof {
        let d = buf@;
        assert(be16(d, 19) < 0x10000) by {
            let s = d.subrange(19, 21);
            reveal_with_fuel(crate::io::be_val, 3);
            assert(s.drop_last().drop_last() =~= Seq::<u8>::empty());
            assert(s.drop_last().last() == s[0]);
        }
    }
    let mut codec_params = CodecParameters::new();
    codec_params.for_codec(CODEC_TYPE_FLAC);
    codec_params.with_sample_rate(stream_info.sample_rate);
    codec_params.with_bits_per_sample(stream_info.bits_per_sample);
    codec_params.with_max_frames_per_packet(stream_info.block_sample_len.1 as u64);
    codec_params.with_channels(stream_info.channels);
    codec_params.with_packet_data_integrity(true);
    if let Some(n_frames) = stream_info.n_samples {
        codec_params.with_n_frames(n_frames);
    }
    Ok(Some(codec_params))
}

/// What a packet of a mapped stream is.
#[derive(Copy, Clone, Debug, PartialEq, Eq, Structural)]
pub enum MapResult {
    Metadata,
    SeekTable,
    Cues,
    Bitstream,
    Unknown,
}

/// The packet handling of an Ogg FLAC stream.
pub struct FlacMapper {
    codec_params: CodecParameters,
}

/// The packet handling of an Ogg Opus stream.
pub struct OpusMapper {
    codec_params: CodecParameters,
    need_comment: bool,
}

/// The packet handling of a stream of a supported codec.
pub enum Mapper {
    Flac(FlacMapper),
    Opus(OpusMapper),
}

/// What the mapping of a FLAC packet `b` gives: bitstream for the packet type 0xff, an error for
/// the invalid types 0x00 and 0x80, else a metadata block, whose kind decides.
pub open spec fn flac_packet(b: Seq<u8>) -> Result<MapResult, Error> {
    if b[0] == 0xff {
        Ok(MapResult::Bitstream)
    } else if b[0] == 0x00 || b[0] == 0x80 {
        Err(Error::DecodeError("invalid packet type"))
    } else if b.len() < 4 {
        Err(crate::io::eof())
    } else {
        match block_type_of((b[0] % 0x80) as u8) {
            MetadataBlockType::VorbisComment => Ok(MapResult::Metadata),
            MetadataBlockType::Picture => match picture_layout(b, 4) {
                Ok(_) => Ok(MapResult::Metadata),
                Err(e) => Err(e),
            },
            _ => Ok(MapResult::Unknown),
        }
    }
}

/// Whether `b` starts with the signature "OpusTags" of the Opus comment header.
pub open spec fn opus_tags(b: Seq<u8>) -> bool {
    &&& b.len() >= 8
    &&& b[0] == 0x4f && b[1] == 0x70 && b[2] == 0x75 && b[3] == 0x73
    &&& b[4] == 0x54 && b[5] == 0x61 && b[6] == 0x67 && b[7] == 0x73
}

impl Mapper {
    /// Whether the mapper is that of an Opus stream still waiting for its comment header.
    pub closed spec fn needs_comment(&self) -> bool {
        match self {
            Mapper::Opus(m) => m.need_comment,
            Mapper::Flac(_) => false,
        }
    }

    /// Whether the mapper is that of a FLAC stream.
    pub open spec fn is_flac(&self) -> bool {
        self is Flac
    }

    /// The codec parameters of the mapped stream, as the contracts see them.
    pub closed spec fn params(&self) -> CodecParameters {
        match self {
            Mapper::Flac(m) => m.codec_params,
            Mapper::Opus(m) => m.codec_params,
        }
    }

    /// The codec parameters of the mapped stream.
    pub fn codec(&self) -> (r: &CodecParameters)
        ensures
            *r == self.params(),
    {
        match self {
            Mapper::Flac(m) => &m.codec_params,
            Mapper::Opus(m) => &m.codec_params,
        }
    }

    /// Sorts a packet of the stream. For FLAC, the packet type decides: bitstream, an invalid
    /// type, or a metadata block. For Opus, the first packet after the identification header that
    /// starts with "OpusTags" is the comment header; every packet after it is bitstream.
    pub fn map_packet(&mut self, buf: &[u8]) -> (r: Result<MapResult, Error>)
        requires
            old(self).is_flac() ==> buf@.len() > 0,
        ensures
            final(self).params() == old(self).params(),
            final(self).is_flac() == old(self).is_flac(),
            old(self).is_flac() ==> r == flac_packet(buf@),
            !old(self).is_flac() ==> {
                if !old(self).needs_comment() {
                    r == Ok::<MapResult, Error>(MapResult::Bitstream) && !final(self).needs_comment()
                } else if opus_tags(buf@) {
                    r == Ok::<MapResult, Error>(MapResult::Metadata) && !final(self).needs_comment()
                } else {
                    r == Ok::<MapResult, Error>(MapResult::Unknown) && final(self).needs_comment()
                }
            },
    {
        match self {
            Mapper::Flac(_) => {
                // The first byte of a packet is the packet type.
                if buf[0] == 0xff {
                    Ok(MapResult::Bitstream)
                } else if buf[0] == 0x00 || buf[0] == 0x80 {
                    decode_error("invalid packet type")
                } else {
                    // Packet types 0x01 to 0x7f, and 0x81 to 0xfe, are metadata blocks.
                    let mut reader = BufStream::new(buf);
                    let header = MetadataBlockHeader::read(&mut reader)?;
                    match header.block_type {
                        MetadataBlockType::VorbisComment => Ok(MapResult::Metadata),
                        MetadataBlockType::Picture => {
                            read_picture_block(&mut reader)?;
                            Ok(MapResult::Metadata)
                        },
                        _ => Ok(MapResult::Unknown),
                    }
                }
            },
            Mapper::Opus(m) => {
                // After the comment packet there should only be bitstream packets.
                if !m.need_comment {
                    Ok(MapResult::Bitstream)
                } else if buf.len() >= 8 && buf[0] == 0x4f && buf[1] == 0x70 && buf[2] == 0x75
                    && buf[3] == 0x73 && buf[4] == 0x54 && buf[5] == 0x61 && buf[6] == 0x67
                    && buf[7] == 0x73 {
                    m.need_comment = false;
                    Ok(MapResult::Metadata)
                } else {
                    Ok(MapResult::Unknown)
                }
            },
        }
    }
}

/// Detects the codec of an Ogg stream from its first packet: FLAC, then Vorbis, whose mapping
/// recognises nothing, then Opus. Every mapping looks at the packet, and an error of FLAC's is
/// the result.
pub fn detect(buf: &[u8]) -> (r: Result<Option<Mapper>, Error>)
    ensures
        ogg_flac_ident(buf@) && stream_info_error(buf@, 17) is Some ==> r == Err::<
            Option<Mapper>,
            Error,
        >(stream_info_error(buf@, 17).unwrap()),
        ogg_flac_ident(buf@) && stream_info_error(buf@, 17) is None ==> (r matches Ok(Some(m))
            && m.is_flac() && m.params().codec == CODEC_TYPE_FLAC),
        !ogg_flac_ident(buf@) && opus_ident(buf@) is Some ==> (r matches Ok(Some(m)) && !m.is_flac()
            && m.needs_comment() && m.params().codec == CodecType::Opus),
        !ogg_flac_ident(buf@) && opus_ident(buf@) is None ==> r matches Ok(None),
{
    let flac = detect_flac(buf)?;
    let opus = detect_opus(buf)?;
    match flac {
        Some(codec_params) => Ok(Some(Mapper::Flac(FlacMapper { codec_params }))),
        None => match opus {
            Some(codec_params) => Ok(Some(Mapper::Opus(OpusMapper { codec_params, need_comment: true }))),
            None => Ok(None),
        },
    }
}

} // verus!
