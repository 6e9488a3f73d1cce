//! Decoding of whole FLAC frames into planar audio buffers.

use vstd::prelude::*;
use vstd::arithmetic::power2::pow2;
use crate::audio::{AudioBuffer, Signal, SignalSpec, popcount, plane};
use crate::checksum::{Crc16, crc16};
use crate::codecs::{
    CodecDescriptor, CodecParameters, CODEC_TYPE_FLAC, Decoder, DecoderKind, DecoderOptions,
};
use crate::errors::{Error, decode_error, unsupported_error};
use crate::flac::arith::wrap_i32;
use crate::flac::frame::{
    ChannelAssignment, FrameHeader, ParsedPacket, first_sync, frame_header, lemma_first_sync,
    next_frame, next_header, packet_ts_of, read_frame_header, sync_frame, sync_word,
};
use crate::flac::subframe::{
    decode_outcome, decorrelate_left_side, decorrelate_mid_side, decorrelate_right_side,
    mid_side_left, mid_side_right, read_subframe, samples_shl, shifted_samples, subframe,
};
use crate::flac::validate::{Md5AudioValidator, interleaved_bytes, bytes_for_bps, planes};
use crate::formats::Packet;
use crate::io::{BitStreamLtr, BufStream, be_val, eof};

verus! {

/// The bits per sample of each coded channel of a frame whose samples have `bps` bits: a
/// difference channel carries one bit more.
pub open spec fn subframe_widths(assign: ChannelAssignment, bps: nat) -> Seq<nat> {
    match assign {
        ChannelAssignment::Independant(n) => Seq::new(n as nat, |i: int| bps),
        ChannelAssignment::LeftSide => seq![bps, bps + 1],
        ChannelAssignment::MidSide => seq![bps, bps + 1],
        ChannelAssignment::RightSide => seq![bps + 1, bps],
    }
}

/// The subframes of `n` samples, of the given widths, read one after the other from bit `pos`.
pub open spec fn subframes(d: Seq<u8>, pos: int, widths: Seq<nat>, n: nat) -> Result<
    (Seq<Seq<i32>>, int),
    Error,
>
    decreases widths.len(),
{
    if widths.len() == 0 {
        Ok((seq![], pos))
    } else {
        match subframes(d, pos, widths.drop_last(), n) {
            Err(e) => Err(e),
            Ok((cs, p)) => match subframe(d, p, widths.last(), n) {
                Err(e) => Err(e),
                Ok((s, p2)) => Ok((cs.push(s), p2)),
            },
        }
    }
}

/// Reading the subframes of a frame only moves forward.
pub proof fn lemma_subframes_end(d: Seq<u8>, pos: int, widths: Seq<nat>, n: nat)
    requires
        0 <= pos,
    ensures
        subframes(d, pos, widths, n) matches Ok((_, q)) ==> q >= pos,
    decreases widths.len(),
{
    if widths.len() > 0 {
        lemma_subframes_end(d, pos, widths.drop_last(), n);
        if let Ok((_, p)) = subframes(d, pos, widths.drop_last(), n) {
            crate::flac::subframe::lemma_subframe_end(d, p, widths.last(), n);
        }
    }
}

/// The channels restored from the coded channels `cs` of a frame.
pub open spec fn decorrelated(assign: ChannelAssignment, cs: Seq<Seq<i32>>) -> Seq<Seq<i32>> {
    match assign {
        ChannelAssignment::Independant(_) => cs,
        ChannelAssignment::LeftSide => seq![
            cs[0],
            Seq::new(cs[1].len(), |i: int| wrap_i32(cs[0][i] - cs[1][i]) as i32),
        ],
        ChannelAssignment::MidSide => seq![
            Seq::new(cs[0].len(), |i: int| mid_side_left(cs[0][i], cs[1][i]) as i32),
            Seq::new(cs[1].len(), |i: int| mid_side_right(cs[0][i], cs[1][i]) as i32),
        ],
        ChannelAssignment::RightSide => seq![
            Seq::new(cs[0].len(), |i: int| wrap_i32(cs[0][i] + cs[1][i]) as i32),
            cs[1],
        ],
    }
}

/// Samples of `bps` bits moved to the top of a 32-bit sample.
pub open spec fn to_full_width(s: Seq<i32>, bps: nat) -> Seq<i32> {
    if bps < 32 {
        shifted_samples(s, (32 - bps) as nat)
    } else {
        s
    }
}

proof fn lemma_subframes_len(d: Seq<u8>, pos: int, widths: Seq<nat>, n: nat)
    ensures
        subframes(d, pos, widths, n) matches Ok((cs, _)) ==> cs.len() == widths.len(),
    decreases widths.len(),
{
    if widths.len() > 0 {
        lemma_subframes_len(d, pos, widths.drop_last(), n);
    }
}

proof fn lemma_subframes_err(d: Seq<u8>, pos: int, widths: Seq<nat>, n: nat, k: nat)
    requires
        k <= widths.len(),
        subframes(d, pos, widths.take(k as int), n) is Err,
    ensures
        subframes(d, pos, widths, n) == subframes(d, pos, widths.take(k as int), n),
    decreases widths.len() - k,
{
    if k < widths.len() {
        assert(widths.take((k + 1) as int).drop_last() =~= widths.take(k as int));
        lemma_subframes_err(d, pos, widths, n, k + 1);
    } else {
        assert(widths.take(k as int) =~= widths);
    }
}

/// The widths of a list of exec widths.
pub open spec fn widths_of(w: Seq<u32>) -> Seq<nat> {
    w.map_values(|x: u32| x as nat)
}

/// The shape of a buffer stays as it was: its signal, capacity, channels and frames.
pub open spec fn same_shape(a: AudioBuffer<i32>, b: AudioBuffer<i32>) -> bool {
    &&& b.wf()
    &&& b.signal() == a.signal()
    &&& b.signal_frames() == a.signal_frames()
    &&& b.signal_capacity() == a.signal_capacity()
    &&& b.signal_channels() == a.signal_channels()
}

/// Reads one subframe per width into the first channels of `buf`.
fn read_subframes(bs: &mut BitStreamLtr, widths: &Vec<u32>, buf: &mut AudioBuffer<i32>) -> (r: Result<
    (),
    Error,
>)
    requires
        old(bs).wf(),
        old(buf).wf(),
        old(buf).signal_frames() >= 1,
        widths@.len() <= old(buf).signal_channels(),
        widths@.len() <= 255,
    ensures
        final(bs).data() == old(bs).data(),
        same_shape(*old(buf), *final(buf)),
        forall|ch: nat|
            widths@.len() <= ch < old(buf).signal_channels() ==> #[trigger] final(buf).channel(ch)
                == old(buf).channel(ch),
        match subframes(
            old(bs).data(),
            old(bs).bit_pos(),
            widths_of(widths@),
            old(buf).signal_frames(),
        ) {
            Ok((cs, b)) => {
                &&& r is Ok
                &&& final(bs).wf()
                &&& final(bs).bit_pos() == b
                &&& forall|ch: nat| ch < widths@.len() ==> #[trigger] final(buf).channel(ch) == cs[ch as int]
            },
            Err(e) => r == Err::<(), Error>(e),
        },
{
    let ghost d = bs.data();
    let ghost p0 = bs.bit_pos();
    let ghost n = buf.signal_frames();
    let ghost ws = widths_of(widths@);
    proof {
        buf.lemma_shape();
        assert(ws.take(0) =~= Seq::<nat>::empty());
    }
    let mut k: usize = 0;
    while k < widths.len()
        invariant
            bs.data() == d,
            d == old(bs).data(),
            p0 == old(bs).bit_pos(),
            n == old(buf).signal_frames(),
            ws == widths_of(widths@),
            k <= widths@.len(),
            widths@.len() <= old(buf).signal_channels(),
            widths@.len() <= 255,
            n >= 1,
            same_shape(*old(buf), *buf),
            forall|ch: nat|
                k <= ch < old(buf).signal_channels() ==> #[trigger] buf.channel(ch) == old(
                    buf,
                ).channel(ch),
            ({
                let res = subframes(d, p0, ws.take(k as int), n);
                &&& res is Ok
                &&& bs.wf()
                &&& bs.bit_pos() == res->Ok_0.1
                &&& forall|ch: nat| ch < k ==> #[trigger] buf.channel(ch) == res->Ok_0.0[ch as int]
            }),
        decreases widths@.len() - k,
    {
        proof {
            buf.lemma_shape();
            assert(ws.take(k + 1).drop_last() =~= ws.take(k as int));
            lemma_subframes_len(d, p0, ws.take(k as int), n);
        }
        let ghost prev = subframes(d, p0, ws.take(k as int), n)->Ok_0;
        let ghost before = *buf;
        let width = widths[k];
        let slice = buf.chan_mut(k as u8);
        let res = read_subframe(bs, width, slice);
        match res {
            Ok(()) => {},
            Err(e) => {
                proof {
                    lemma_subframes_err(d, p0, ws, n, (k + 1) as nat);
                }
                return Err(e);
            },
        }
        proof {
            assert(ws.take(k + 1).last() == width as nat);
            lemma_subframes_len(d, p0, ws.take(k + 1), n);
        }
        k = k + 1;
    }
    proof {
        assert(ws.take(k as int) =~= ws);
    }
    Ok(())
}

/// Returns a copy of the samples.
fn copy_plane(s: &[i32]) -> (r: Vec<i32>)
    ensures
        r@ == s@,
{
    let mut v: Vec<i32> = Vec::new();
    let mut i: usize = 0;
    while i < s.len()
        invariant
            i <= s@.len(),
            v@ == s@.take(i as int),
        decreases s@.len() - i,
    {
        v.push(s[i]);
        proof {
            assert(s@.take(i + 1) =~= s@.take(i as int).push(s@[i as int]));
        }
        i = i + 1;
    }
    assert(s@.take(i as int) =~= s@);
    v
}

/// Overwrites `dst` with the samples of `src`.
pub(crate) fn write_plane(dst: &mut [i32], src: &[i32])
    requires
        old(dst)@.len() == src@.len(),
    ensures
        final(dst)@ == src@,
{
    let mut i: usize = 0;
    while i < src.len()
        invariant
            i <= src@.len(),
            dst@.len() == src@.len(),
            forall|k: int| 0 <= k < i ==> dst@[k] == src@[k],
        decreases src@.len() - i,
    {
        dst[i] = src[i];
        i = i + 1;
    }
    assert(dst@ =~= src@);
}

/// Restores the left and right channels of a stereo frame from its coded channels in the first
/// two channels of `buf`.
fn decorrelate_channels(assign: ChannelAssignment, buf: &mut AudioBuffer<i32>)
    requires
        old(buf).wf(),
        !(assign is Independant) ==> old(buf).signal_channels() >= 2,
    ensures
        same_shape(*old(buf), *final(buf)),
        assign is Independant ==> forall|ch: nat|
            ch < old(buf).signal_channels() ==> #[trigger] final(buf).channel(ch) == old(
                buf,
            ).channel(ch),
        !(assign is Independant) ==> {
            let out = decorrelated(assign, seq![old(buf).channel(0), old(buf).channel(1)]);
            &&& final(buf).channel(0) == out[0]
            &&& final(buf).channel(1) == out[1]
            &&& forall|ch: nat|
                2 <= ch < old(buf).signal_channels() ==> #[trigger] final(buf).channel(ch) == old(
                    buf,
                ).channel(ch)
        },
{
    proof {
        buf.lemma_shape();
    }
    match assign {
        ChannelAssignment::Independant(_) => {},
        ChannelAssignment::LeftSide => {
            let left = copy_plane(buf.chan(0));
            let side = buf.chan_mut(1);
            decorrelate_left_side(left.as_slice(), side);
            proof {
                let cs = seq![old(buf).channel(0), old(buf).channel(1)];
                assert(buf.channel(1) =~= decorrelated(assign, cs)[1]);
            }
        },
        ChannelAssignment::RightSide => {
            let right = copy_plane(buf.chan(1));
            let side = buf.chan_mut(0);
            decorrelate_right_side(right.as_slice(), side);
            proof {
                let cs = seq![old(buf).channel(0), old(buf).channel(1)];
                assert(buf.channel(0) =~= decorrelated(assign, cs)[0]);
            }
        },
        ChannelAssignment::MidSide => {
            let mut mid = copy_plane(buf.chan(0));
            let side = buf.chan_mut(1);
            decorrelate_mid_side(mid.as_mut_slice(), side);
            proof {
                buf.lemma_shape();
            }
            let dst = buf.chan_mut(0);
            write_plane(dst, mid.as_slice());
            proof {
                let cs = seq![old(buf).channel(0), old(buf).channel(1)];
                assert(buf.channel(0) =~= decorrelated(assign, cs)[0]);
                assert(buf.channel(1) =~= decorrelated(assign, cs)[1]);
            }
        },
    }
}

/// Shifts every sample of every channel of `buf` left by `shift` bits.
fn shift_all(buf: &mut AudioBuffer<i32>, shift: u32)
    requires
        old(buf).wf(),
    ensures
        same_shape(*old(buf), *final(buf)),
        forall|ch: nat|
            ch < old(buf).signal_channels() ==> #[trigger] final(buf).channel(ch) == shifted_samples(
                old(buf).channel(ch),
                shift as nat,
            ),
{
    proof {
        buf.lemma_shape();
        vstd::arithmetic::power2::lemma2_to64();
        crate::audio::lemma_popcount_bound(buf.signal().channels.mask() as nat, 32);
    }
    let n_channels = buf.spec().channels.count();
    let mut ch: usize = 0;
    while ch < n_channels
        invariant
            n_channels == old(buf).signal_channels(),
            n_channels <= 32,
            ch <= n_channels,
            same_shape(*old(buf), *buf),
            forall|c: nat|
                c < ch ==> #[trigger] buf.channel(c) == shifted_samples(
                    old(buf).channel(c),
                    shift as nat,
                ),
            forall|c: nat| ch <= c < n_channels ==> #[trigger] buf.channel(c) == old(buf).channel(c),
        decreases n_channels - ch,
    {
        proof {
            buf.lemma_shape();
        }
        let plane = buf.chan_mut(ch as u8);
        samples_shl(shift, plane);
        ch = ch + 1;
    }
}

/// The bits per sample a frame is decoded with: the frame header's, else the stream's.
pub open spec fn frame_bps(h: FrameHeader, stream_bps: Option<u32>) -> Option<u32> {
    match h.bits_per_sample {
        Some(b) => Some(b),
        None => stream_bps,
    }
}

/// The FLAC frame at the start of the packet `d`: its header, the bits per sample it is decoded
/// with, and its channels (before they are moved to the top of 32-bit samples), for a decoder
/// whose buffer holds `capacity` frames of `n_channels` channels and whose stream has
/// `stream_bps` bits per sample.
///
/// The frame starts at the first synchronization code. Its subframes follow the header, one per
/// coded channel, and after them, at the next byte boundary, a CRC-16 of the frame from the
/// synchronization code on.
pub open spec fn flac_frame(d: Seq<u8>, stream_bps: Option<u32>, capacity: nat, n_channels: nat) -> Result<
    (FrameHeader, u32, Seq<Seq<i32>>),
    Error,
> {
    let i = first_sync(d, 0);
    if i >= d.len() {
        Err(eof())
    } else {
        let (hr, e) = frame_header(d, i + 2, sync_word(d, i));
        match hr {
            Err(err) => Err(err),
            Ok(h) => match frame_bps(h, stream_bps) {
                None => Err(Error::DecodeError("Bits per sample not provided.")),
                Some(bps) => if bps > 32 {
                    Err(Error::DecodeError("Bits per sample exceed 32."))
                } else if h.block_num_samples > capacity {
                    Err(Error::DecodeError("Block size exceeds the decoder's buffer."))
                } else if subframe_widths(h.channel_assignment, bps as nat).len() > n_channels {
                    Err(Error::DecodeError("Frame has more channels than the stream."))
                } else {
                    match subframes(
                        d,
                        8 * e,
                        subframe_widths(h.channel_assignment, bps as nat),
                        h.block_num_samples as nat,
                    ) {
                        Err(err) => Err(err),
                        Ok((cs, b)) => {
                            let q = (b + 7) / 8;
                            if q + 2 > d.len() {
                                Err(eof())
                            } else if be_val(d.subrange(q, q + 2)) != crc16(0, d.subrange(i, q)) {
                                Err(Error::DecodeError("Computed frame CRC does not match expected CRC."))
                            } else {
                                Ok((h, bps, decorrelated(h.channel_assignment, cs)))
                            }
                        },
                    }
                },
            },
        }
    }
}

/// The planes hashed by the validator for a frame: the decoded channels, then the stale contents
/// of any further channel of the buffer.
pub open spec fn hashed_planes(dec: Seq<Seq<i32>>, stale: Seq<i32>, capacity: nat, n: nat, n_channels: nat) -> Seq<Seq<i32>> {
    Seq::new(
        n_channels,
        |ch: int| if ch < dec.len() {
            dec[ch]
        } else {
            plane(stale, ch as nat, capacity, n)
        },
    )
}

/// The descriptor of the FLAC codec.
pub open spec fn flac_descriptor() -> CodecDescriptor {
    CodecDescriptor {
        codec: CODEC_TYPE_FLAC,
        short_name: "flac",
        long_name: "Free Lossless Audio Codec",
        inst: DecoderKind::Flac,
    }
}

/// Locates FLAC frames in a stream by their frame headers alone.
pub struct PacketParser;

impl PacketParser {
    /// Finds the next valid frame header and returns the frame's timestamp and length in
    /// samples, and the length of what was read from the start of its synchronization code.
    pub fn parse_packet(reader: &mut BufStream) -> (r: Result<ParsedPacket, Error>)
        ensures
            final(reader).data() == old(reader).data(),
            ({
                let (res, e) = next_header(old(reader).data(), old(reader).position() as int);
                &&& final(reader).position() == e
                &&& match res {
                    Ok((h, i)) => r == Ok::<ParsedPacket, Error>(
                        ParsedPacket {
                            packet_ts: packet_ts_of(h),
                            n_frames: h.block_num_samples as u32,
                            parsed_len: (e - i) as usize,
                        },
                    ),
                    Err(err) => r == Err::<ParsedPacket, Error>(err),
                }
            }),
    {
        next_frame(reader)
    }
}

/// `FlacDecoder` implements a decoder for the FLAC codec bitstream.
pub struct FlacDecoder {
    params: CodecParameters,
    is_validating: bool,
    validator: Md5AudioValidator,
    buf: AudioBuffer<i32>,
}

impl FlacDecoder {
    /// The parameters the decoder was instantiated with.
    pub closed spec fn params_spec(&self) -> CodecParameters {
        self.params
    }

    /// Whether decoded audio is fed to the MD5 validator.
    pub closed spec fn validating(&self) -> bool {
        self.is_validating
    }

    /// The audio bytes fed to the MD5 validator so far.
    pub closed spec fn hashed(&self) -> Seq<u8> {
        self.validator.hashed()
    }

    /// The buffer decoded frames are written to.
    pub closed spec fn buffer_spec(&self) -> AudioBuffer<i32> {
        self.buf
    }

    /// The decoder is well formed.
    pub closed spec fn wf(&self) -> bool {
        self.buf.wf()
    }

    /// Returns the buffer holding the last decoded frame.
    pub fn buffer(&self) -> (r: &AudioBuffer<i32>)
        ensures
            *r == self.buffer_spec(),
    {
        &self.buf
    }

    /// Returns the MD5 digest of the audio validated so far.
    pub fn digest(&mut self) -> (r: [u8; 16])
        ensures
            r@ == crate::flac::validate::md5_digest(old(self).hashed()),
            final(self).hashed() == old(self).hashed(),
            final(self).buffer_spec() == old(self).buffer_spec(),
            final(self).params_spec() == old(self).params_spec(),
            final(self).validating() == old(self).validating(),
    {
        self.validator.finalize()
    }

    /// Decodes the FLAC frame of a packet into the decoder's buffer, its samples moved to the top
    /// of 32-bit samples.
    pub fn decode(&mut self, packet: &Packet) -> (r: Result<(), Error>)
        requires
            old(self).wf(),
        ensures
            final(self).wf(),
            final(self).params_spec() == old(self).params_spec(),
            final(self).validating() == old(self).validating(),
            final(self).buffer_spec().signal() == old(self).buffer_spec().signal(),
            final(self).buffer_spec().signal_capacity() == old(self).buffer_spec().signal_capacity(),
            ({
                let old_buf = old(self).buffer_spec();
                let buf = final(self).buffer_spec();
                let nch = old_buf.signal_channels();
                let cap = old_buf.signal_capacity();
                match flac_frame(packet.bytes(), old(self).params_spec().bits_per_sample, cap, nch) {
                    Ok((h, bps, dec)) => {
                        let n = h.block_num_samples as nat;
                        &&& r is Ok
                        &&& buf.signal_frames() == n
                        &&& forall|ch: nat|
                            ch < nch ==> #[trigger] buf.channel(ch) == to_full_width(
                                hashed_planes(dec, old_buf.samples(), cap, n, nch)[ch as int],
                                bps as nat,
                            )
                        &&& final(self).hashed() == if old(self).validating() && bps > 0 {
                            old(self).hashed() + interleaved_bytes(
                                hashed_planes(dec, old_buf.samples(), cap, n, nch),
                                n,
                                bytes_for_bps(bps),
                            )
                        } else {
                            old(self).hashed()
                        }
                    },
                    Err(e) => r == Err::<(), Error>(e),
                }
            }),
    {
        proof {
            self.buf.lemma_shape();
        }
        let data = packet.data();
        let mut reader = BufStream::new(data);
        // Synchronize to a frame and get the synchronization code.
        let sync = sync_frame(&mut reader)?;
        proof {
            lemma_first_sync(data@, 0);
        }
        let frame_start = reader.pos() - 2;
        let header = read_frame_header(&mut reader, sync)?;
        let ghost header_end = reader.position() as int;
        proof {
            crate::flac::frame::lemma_frame_header_end(data@, frame_start + 2, sync);
        }
        // Use the bits per sample as stated in the frame header, falling back to the stream
        // information if provided. If neither are available, return an error.
        let bps = match header.bits_per_sample {
            Some(bps) => bps,
            None => match self.params.bits_per_sample {
                Some(bps) => bps,
                None => return decode_error("Bits per sample not provided."),
            },
        };
        if bps > 32 {
            return decode_error("Bits per sample exceed 32.");
        }
        let n = header.block_num_samples as usize;
        if n > self.buf.capacity() {
            return decode_error("Block size exceeds the decoder's buffer.");
        }
        let widths: Vec<u32> = match header.channel_assignment {
            ChannelAssignment::Independant(channels) => {
                let mut w: Vec<u32> = Vec::new();
                let mut k: u32 = 0;
                while k < channels
                    invariant
                        k <= channels,
                        w@ == Seq::new(k as nat, |j: int| bps),
                    decreases channels - k,
                {
                    w.push(bps);
                    proof {
                        assert(w@ =~= Seq::new((k + 1) as nat, |j: int| bps));
                    }
                    k = k + 1;
                }
                w
            },
            // For Left/Side, Mid/Side, and Right/Side channel configurations, the Side
            // (Difference) channel requires an extra bit per sample.
            ChannelAssignment::LeftSide => vec![bps, bps + 1],
            ChannelAssignment::MidSide => vec![bps, bps + 1],
            ChannelAssignment::RightSide => vec![bps + 1, bps],
        };
        proof {
            assert(widths_of(widths@) =~= subframe_widths(header.channel_assignment, bps as nat));
        }
        let n_channels = self.buf.spec().channels.count();
        if widths.len() > n_channels {
            return decode_error("Frame has more channels than the stream.");
        }
        proof {
            crate::flac::frame::lemma_block_size_positive(data@, frame_start + 2, sync);
        }
        // Reserve a writeable chunk in the buffer equal to the number of samples in the block.
        self.buf.renew();
        self.buf.produce(n);
        let ghost stale = self.buf.samples();
        let ghost before_sub = self.buf;
        // Sub-frames don't have any byte-aligned content, so use a bit reader.
        let mut bs = BitStreamLtr::new(reader);
        read_subframes(&mut bs, &widths, &mut self.buf)?;
        proof {
            lemma_subframes_end(data@, 8 * header_end, widths_of(widths@), n as nat);
        }
        let ghost coded = self.buf;
        // Restore the left and right channels of stereo frames.
        decorrelate_channels(header.channel_assignment, &mut self.buf);
        let ghost nch = before_sub.signal_channels();
        let ghost cap = before_sub.signal_capacity();
        let ghost cs = subframes(data@, 8 * header_end, widths_of(widths@), n as nat).unwrap().0;
        let ghost dec = decorrelated(header.channel_assignment, cs);
        proof {
            lemma_subframes_len(data@, 8 * header_end, widths_of(widths@), n as nat);
            if !(header.channel_assignment is Independant) {
                assert(cs =~= seq![coded.channel(0), coded.channel(1)]);
            }
            assert forall|ch: nat| ch < nch implies #[trigger] self.buf.channel(ch) == hashed_planes(
                dec,
                stale,
                cap,
                n as nat,
                nch,
            )[ch as int] by {
                before_sub.lemma_channel_plane(ch);
            }
            assert(planes(self.buf, nch) =~= hashed_planes(dec, stale, cap, n as nat, nch));
        }
        // Feed the validator if validation is enabled.
        if self.is_validating {
            self.validator.update(&self.buf, bps);
        }
        // The decoder uses a 32bit sample format as a common denominator, but that doesn't mean
        // the encoded audio samples are actually 32bit. Shift all samples in the output buffer
        // so that regardless the encoded bits/sample, the output is always 32bits/sample.
        if bps < 32 {
            shift_all(&mut self.buf, 32 - bps);
        }
        // The frame, from the synchronization code on, is checksummed with a CRC16.
        let ghost b = bs.bit_pos();
        let mut reader = bs.into_inner();
        let frame_end = reader.pos();
        proof {
            reader.lemma_position_bound();
            assert(frame_end == (b + 7) / 8);
        }
        let (_before, rest) = data.split_at(frame_start);
        let (frame, _after) = rest.split_at(frame_end - frame_start);
        let mut frame_crc = Crc16::new(0);
        frame_crc.process_buf_bytes(frame);
        let crc16_computed = frame_crc.crc();
        assert(frame@ == data@.subrange(frame_start as int, frame_end as int));
        assert(crc16_computed == crc16(0, data@.subrange(frame_start as int, frame_end as int)));
        let crc16_expected = reader.read_be_u16()?;
        if crc16_computed != crc16_expected {
            return decode_error("Computed frame CRC does not match expected CRC.");
        }
        Ok(())
    }
}

/// What instantiating a FLAC decoder with `params` and `options` returns: the error of the first
/// missing parameter, or a decoder for the stream the parameters describe, which is owed when
/// every parameter is there and its buffer fits in memory.
pub open spec fn flac_new_outcome(
    params: CodecParameters,
    options: DecoderOptions,
    r: Result<FlacDecoder, Error>,
) -> bool {
    &&& params.max_frames_per_packet is None ==> r == Err::<FlacDecoder, Error>(
        Error::Unsupported("Variable frames per packet are unsupported."),
    )
    &&& params.max_frames_per_packet is Some && params.sample_rate is None ==> r == Err::<
        FlacDecoder,
        Error,
    >(Error::Unsupported("Variable sample rate is unsupported."))
    &&& params.max_frames_per_packet is Some && params.sample_rate is Some
        && params.channels is None ==> r == Err::<FlacDecoder, Error>(
        Error::Unsupported("Dynamic channels are unsupported."),
    )
    &&& r matches Ok(dec) ==> {
        &&& dec.wf()
        &&& dec.params_spec() == params
        &&& dec.validating() == options.verify
        &&& dec.hashed() == Seq::<u8>::empty()
        &&& dec.buffer_spec().signal() == SignalSpec {
            rate: params.sample_rate.unwrap(),
            channels: params.channels.unwrap(),
        }
        &&& dec.buffer_spec().signal_capacity() == params.max_frames_per_packet.unwrap()
        &&& dec.buffer_spec().signal_frames() == 0
    }
    &&& ({
        &&& params.max_frames_per_packet is Some
        &&& params.sample_rate is Some
        &&& params.channels is Some
        &&& params.max_frames_per_packet.unwrap() <= usize::MAX
        &&& params.max_frames_per_packet.unwrap() * popcount(
            params.channels.unwrap().mask() as nat,
        ) <= usize::MAX
    }) ==> r is Ok
}

impl Decoder for FlacDecoder {
    open spec fn supported_codecs_spec() -> Seq<CodecDescriptor> {
        seq![flac_descriptor()]
    }

    fn try_new(params: &CodecParameters, options: &DecoderOptions) -> (r: Result<Self, Error>)
        ensures
            flac_new_outcome(*params, *options, r),
    {
        let frames = match params.max_frames_per_packet {
            Some(frames) => frames,
            None => return unsupported_error("Variable frames per packet are unsupported."),
        };
        let sample_rate = match params.sample_rate {
            Some(rate) => rate,
            None => return unsupported_error("Variable sample rate is unsupported."),
        };
        let channels = match params.channels {
            Some(channels) => channels,
            None => return unsupported_error("Dynamic channels are unsupported."),
        };
        let spec = SignalSpec::new(sample_rate, channels);
        let n_channels = channels.count();
        proof {
            if n_channels > 0 && frames * n_channels <= usize::MAX {
                vstd::arithmetic::div_mod::lemma_div_is_ordered(
                    (frames * n_channels) as int,
                    usize::MAX as int,
                    n_channels as int,
                );
                vstd::arithmetic::div_mod::lemma_div_multiples_vanish(
                    frames as int,
                    n_channels as int,
                );
                vstd::arithmetic::mul::lemma_mul_is_commutative(frames as int, n_channels as int);
            }
        }
        if frames > usize::MAX as u64 || (n_channels > 0 && frames > (usize::MAX / n_channels) as u64) {
            return unsupported_error("Audio buffer exceeds the addressable size.");
        }
        proof {
            if n_channels > 0 {
                assert(frames * n_channels <= usize::MAX) by (nonlinear_arith)
                    requires
                        n_channels > 0,
                        frames <= usize::MAX / n_channels,
                ;
            }
        }
        Ok(FlacDecoder {
            params: *params,
            is_validating: options.verify,
            validator: Md5AudioValidator::new(),
            buf: AudioBuffer::new(frames, &spec),
        })
    }

    fn supported_codecs() -> (r: Vec<CodecDescriptor>) {
        let mut v: Vec<CodecDescriptor> = Vec::new();
        v.push(
            CodecDescriptor {
                codec: CODEC_TYPE_FLAC,
                short_name: "flac",
                long_name: "Free Lossless Audio Codec",
                inst: DecoderKind::Flac,
            },
        );
        assert(v@ =~= seq![flac_descriptor()]);
        v
    }

    fn codec_params(&self) -> (r: &CodecParameters)
        ensures
            *r == self.params_spec(),
    {
        &self.params
    }

    fn close(&mut self) {
    }
}

} // verus!
