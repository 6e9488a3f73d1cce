//! MD5 validation of decoded FLAC audio.
//!
//! FLAC's MD5 covers the decoded samples interleaved, each truncated to the smallest whole number
//! of bytes that holds the stream's bits per sample, least significant byte first.

use vstd::prelude::*;
use crate::audio::{AudioBuffer, Signal, popcount};

verus! {

/// An MD5 computation in progress.
#[verifier::external_type_specification]
#[verifier::external_body]
pub struct ExMd5Context(md5::Context);

/// The bytes an MD5 context has consumed since it was created.
pub uninterp spec fn md5_input(ctx: md5::Context) -> Seq<u8>;

/// The MD5 digest of a message.
pub uninterp spec fn md5_digest(data: Seq<u8>) -> Seq<u8>;

/// Calls `md5::Context::new`, which creates a context that has consumed nothing.
#[verifier::external_body]
fn md5_context_new() -> (r: md5::Context)
    ensures
        md5_input(r) == Seq::<u8>::empty(),
{
    md5::Context::new()
}

/// Calls `md5::Context::consume`, which feeds the bytes of `data` to the context, after what it
/// consumed before.
#[verifier::external_body]
fn md5_context_consume(ctx: &mut md5::Context, data: &[u8])
    ensures
        md5_input(*final(ctx)) == md5_input(*old(ctx)) + data@,
{
    ctx.consume(data)
}

/// Calls `md5::Context::clone`, which copies the context with what it consumed.
#[verifier::external_body]
fn md5_context_clone(ctx: &md5::Context) -> (r: md5::Context)
    ensures
        md5_input(r) == md5_input(*ctx),
{
    ctx.clone()
}

/// Calls `md5::Context::compute`, which returns the digest of the bytes the context consumed.
#[verifier::external_body]
fn md5_context_compute(ctx: md5::Context) -> (r: [u8; 16])
    ensures
        r@ == md5_digest(md5_input(ctx)),
{
    ctx.compute().0
}

/// The number of bytes that hold a sample of `bps` bits.
pub open spec fn bytes_for_bps(bps: u32) -> nat {
    if bps <= 8 {
        1
    } else if bps <= 16 {
        2
    } else if bps <= 24 {
        3
    } else {
        4
    }
}

/// Byte `k` (0 to 3) of the two's complement bits of a sample, the least significant first.
pub open spec fn sample_byte(s: i32, k: int) -> u8 {
    if k == 0 {
        (s % 0x100) as u8
    } else if k == 1 {
        (s / 0x100 % 0x100) as u8
    } else if k == 2 {
        (s / 0x1_0000 % 0x100) as u8
    } else {
        (s / 0x100_0000 % 0x100) as u8
    }
}

/// The low `n` bytes of a sample, least significant first.
pub open spec fn sample_bytes(s: i32, n: nat) -> Seq<u8> {
    Seq::new(n, |k: int| sample_byte(s, k))
}

/// The samples of frames `0..n` of the channel planes, interleaved, each as `width` bytes.
pub open spec fn interleaved_bytes(chans: Seq<Seq<i32>>, n: nat, width: nat) -> Seq<u8>
    decreases n,
{
    if n == 0 {
        seq![]
    } else {
        interleaved_bytes(chans, (n - 1) as nat, width) + frame_bytes(chans, (n - 1) as int, chans.len(), width)
    }
}

/// The samples of frame `i` of the first `m` channels, each as `width` bytes.
pub open spec fn frame_bytes(chans: Seq<Seq<i32>>, i: int, m: nat, width: nat) -> Seq<u8>
    decreases m,
{
    if m == 0 {
        seq![]
    } else {
        frame_bytes(chans, i, (m - 1) as nat, width) + sample_bytes(chans[m - 1][i], width)
    }
}

/// The planes of the first `n` channels of a signal.
pub open spec fn planes<S: crate::sample::Sample>(buf: AudioBuffer<S>, n: nat) -> Seq<Seq<S>> {
    Seq::new(n, |ch: int| buf.channel(ch as nat))
}

/// `Md5AudioValidator` computes the MD5 checksum of an audio stream taking into account the
/// peculiarities of FLAC's MD5 validation scheme.
pub struct Md5AudioValidator {
    state: md5::Context,
}

impl Md5AudioValidator {
    /// The audio bytes hashed so far.
    pub closed spec fn hashed(&self) -> Seq<u8> {
        md5_input(self.state)
    }

    pub fn new() -> (r: Self)
        ensures
            r.hashed() == Seq::<u8>::empty(),
    {
        Md5AudioValidator { state: md5_context_new() }
    }

    /// Hashes the frames of `buf`, samples of `bps` bits.
    pub fn update(&mut self, buf: &AudioBuffer<i32>, bps: u32)
        requires
            buf.wf(),
            bps <= 32,
        ensures
            bps == 0 ==> final(self).hashed() == old(self).hashed(),
            bps > 0 ==> final(self).hashed() == old(self).hashed() + interleaved_bytes(
                planes(*buf, buf.signal_channels()),
                buf.signal_frames(),
                bytes_for_bps(bps),
            ),
    {
        // Round the sample bit width up to the nearest byte.
        if bps == 0 {
            return;
        }
        let width: usize = if bps <= 8 {
            1
        } else if bps <= 16 {
            2
        } else if bps <= 24 {
            3
        } else {
            4
        };
        proof {
            buf.lemma_shape();
        }
        let n_channels = buf.spec().channels.count();
        let n_frames = buf.frames();
        let ghost chans = planes(*buf, buf.signal_channels());
        let mut hash_buf: Vec<u8> = Vec::new();
        let mut i: usize = 0;
        while i < n_frames
            invariant
                buf.wf(),
                i <= n_frames,
                n_frames == buf.signal_frames(),
                n_channels == buf.signal_channels(),
                chans == planes(*buf, buf.signal_channels()),
                1 <= width <= 4,
                hash_buf@ == interleaved_bytes(chans, i as nat, width as nat),
            decreases n_frames - i,
        {
            let mut ch: usize = 0;
            let ghost before = hash_buf@;
            while ch < n_channels
                invariant
                    buf.wf(),
                    i < n_frames,
                    ch <= n_channels,
                    n_frames == buf.signal_frames(),
                    n_channels == buf.signal_channels(),
                    chans == planes(*buf, buf.signal_channels()),
                    1 <= width <= 4,
                    hash_buf@ == before + frame_bytes(chans, i as int, ch as nat, width as nat),
                decreases n_channels - ch,
            {
                proof {
                    vstd::arithmetic::power2::lemma2_to64();
                    crate::audio::lemma_popcount_bound(buf.signal().channels.mask() as nat, 32);
                    buf.lemma_shape();
                }
                let plane = buf.chan(ch as u8);
                let s = plane[i];
                push_sample_bytes(&mut hash_buf, s, width);
                proof {
                    assert(chans[ch as int] == plane@);
                }
                ch = ch + 1;
            }
            proof {
                assert(chans.len() == n_channels);
            }
            i = i + 1;
        }
        md5_context_consume(&mut self.state, hash_buf.as_slice());
    }

    /// Returns the digest of the audio hashed so far.
    pub fn finalize(&mut self) -> (r: [u8; 16])
        ensures
            r@ == md5_digest(old(self).hashed()),
            final(self).hashed() == old(self).hashed(),
    {
        md5_context_compute(md5_context_clone(&self.state))
    }
}

/// The bytes of the unsigned reading of a sample's bits are the bytes of the sample.
proof fn lemma_sample_byte(s: i32, u: u64, k: int)
    requires
        0 <= k <= 3,
        u == if s < 0 { s + 0x1_0000_0000 } else { s as int },
    ensures
        sample_byte(s, k) == (if k == 0 {
            u % 0x100
        } else if k == 1 {
            u / 0x100 % 0x100
        } else if k == 2 {
            u / 0x1_0000 % 0x100
        } else {
            u / 0x100_0000 % 0x100
        }) as u8,
{
    if s < 0 {
        let d: int = if k == 0 { 1 } else if k == 1 { 0x100 } else if k == 2 { 0x1_0000 } else { 0x100_0000 };
        let m: int = 0x1_0000_0000int / d;
        assert(m * d == 0x1_0000_0000);
        vstd::arithmetic::div_mod::lemma_hoist_over_denominator(s as int, m, d as nat);
        assert(m % 0x100 == 0);
        vstd::arithmetic::div_mod::lemma_mod_multiples_vanish(m / 0x100, s as int / d, 0x100);
        assert((s as int / d + m) % 0x100 == (s as int / d) % 0x100);
    }
}

/// Appends the low `width` bytes of `s`, least significant first.
fn push_sample_bytes(out: &mut Vec<u8>, s: i32, width: usize)
    requires
        1 <= width <= 4,
    ensures
        final(out)@ == old(out)@ + sample_bytes(s, width as nat),
{
    // The two's complement bits of the sample, as an unsigned value.
    let u: u64 = if s < 0 {
        (s as i64 + 0x1_0000_0000) as u64
    } else {
        s as u64
    };
    proof {
        lemma_sample_byte(s, u, 0);
        lemma_sample_byte(s, u, 1);
        lemma_sample_byte(s, u, 2);
        lemma_sample_byte(s, u, 3);
    }
    out.push((u % 0x100) as u8);
    if width >= 2 {
        out.push((u / 0x100 % 0x100) as u8);
    }
    if width >= 3 {
        out.push((u / 0x1_0000 % 0x100) as u8);
    }
    if width >= 4 {
        out.push((u / 0x100_0000 % 0x100) as u8);
    }
    assert(final(out)@ =~= old(out)@ + sample_bytes(s, width as nat));
}

} // verus!
