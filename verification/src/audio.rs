//! Audio signal descriptions and planar audio buffers.

use vstd::prelude::*;
use vstd::std_specs::ops::{BitOrSpec, BitOrSpecImpl};
use crate::sample::Sample;

verus! {

/// The number of set bits of `x`.
pub open spec fn popcount(x: nat) -> nat
    decreases x,
{
    if x == 0 {
        0
    } else {
        x % 2 + popcount(x / 2)
    }
}

/// The bits that name a channel: one for each of the 26 channel positions.
pub open spec fn all_channel_bits() -> u32 {
    0x3ff_ffff
}

/// `Channels` is a bit mask of all channels contained in a signal.
#[derive(Copy, Clone, Debug, PartialEq, Eq, Structural)]
pub struct Channels {
    bits: u32,
}

impl Channels {
    /// The bit mask.
    pub closed spec fn mask(&self) -> u32 {
        self.bits
    }

    /// Front-left (left) or the Mono channel.
    pub fn front_left() -> (r: Channels)
        ensures
            r.mask() == 0x1,
    {
        Channels { bits: 0x1 }
    }
    /// Front-right (right) channel.
    pub fn front_right() -> (r: Channels)
        ensures
            r.mask() == 0x2,
    {
        Channels { bits: 0x2 }
    }
    /// Front-centre (centre) channel.
    pub fn front_centre() -> (r: Channels)
        ensures
            r.mask() == 0x4,
    {
        Channels { bits: 0x4 }
    }
    /// Rear-left (surround rear left) channel.
    pub fn rear_left() -> (r: Channels)
        ensures
            r.mask() == 0x8,
    {
        Channels { bits: 0x8 }
    }
    /// Rear-centre (surround rear centre) channel.
    pub fn rear_centre() -> (r: Channels)
        ensures
            r.mask() == 0x10,
    {
        Channels { bits: 0x10 }
    }
    /// Rear-right (surround rear right) channel.
    pub fn rear_right() -> (r: Channels)
        ensures
            r.mask() == 0x20,
    {
        Channels { bits: 0x20 }
    }
    /// Low frequency channel 1.
    pub fn lfe1() -> (r: Channels)
        ensures
            r.mask() == 0x40,
    {
        Channels { bits: 0x40 }
    }
    /// Front left-of-centre (left center) channel.
    pub fn front_left_centre() -> (r: Channels)
        ensures
            r.mask() == 0x80,
    {
        Channels { bits: 0x80 }
    }
    /// Front right-of-centre (right center) channel.
    pub fn front_right_centre() -> (r: Channels)
        ensures
            r.mask() == 0x100,
    {
        Channels { bits: 0x100 }
    }
    /// Rear left-of-centre channel.
    pub fn rear_left_centre() -> (r: Channels)
        ensures
            r.mask() == 0x200,
    {
        Channels { bits: 0x200 }
    }
    /// Rear right-of-centre channel.
    pub fn rear_right_centre() -> (r: Channels)
        ensures
            r.mask() == 0x400,
    {
        Channels { bits: 0x400 }
    }
    /// Front left-wide channel.
    pub fn front_left_wide() -> (r: Channels)
        ensures
            r.mask() == 0x800,
    {
        Channels { bits: 0x800 }
    }
    /// Front right-wide channel.
    pub fn front_right_wide() -> (r: Channels)
        ensures
            r.mask() == 0x1000,
    {
        Channels { bits: 0x1000 }
    }
    /// Front left-high channel.
    pub fn front_left_high() -> (r: Channels)
        ensures
            r.mask() == 0x2000,
    {
        Channels { bits: 0x2000 }
    }
    /// Front centre-high channel.
    pub fn front_centre_high() -> (r: Channels)
        ensures
            r.mask() == 0x4000,
    {
        Channels { bits: 0x4000 }
    }
    /// Front right-high channel.
    pub fn front_right_high() -> (r: Channels)
        ensures
            r.mask() == 0x8000,
    {
        Channels { bits: 0x8000 }
    }
    /// Low frequency channel 2.
    pub fn lfe2() -> (r: Channels)
        ensures
            r.mask() == 0x10000,
    {
        Channels { bits: 0x10000 }
    }
    /// Side left (surround left) channel.
    pub fn side_left() -> (r: Channels)
        ensures
            r.mask() == 0x20000,
    {
        Channels { bits: 0x20000 }
    }
    /// Side right (surround right) channel.
    pub fn side_right() -> (r: Channels)
        ensures
            r.mask() == 0x40000,
    {
        Channels { bits: 0x40000 }
    }
    /// Top centre channel.
    pub fn top_centre() -> (r: Channels)
        ensures
            r.mask() == 0x80000,
    {
        Channels { bits: 0x80000 }
    }
    /// Top front-left channel.
    pub fn top_front_left() -> (r: Channels)
        ensures
            r.mask() == 0x100000,
    {
        Channels { bits: 0x100000 }
    }
    /// Top front-centre channel.
    pub fn top_front_centre() -> (r: Channels)
        ensures
            r.mask() == 0x200000,
    {
        Channels { bits: 0x200000 }
    }
    /// Top front-right channel.
    pub fn top_front_right() -> (r: Channels)
        ensures
            r.mask() == 0x400000,
    {
        Channels { bits: 0x400000 }
    }
    /// Top rear-left channel.
    pub fn top_rear_left() -> (r: Channels)
        ensures
            r.mask() == 0x800000,
    {
        Channels { bits: 0x800000 }
    }
    /// Top rear-centre channel.
    pub fn top_rear_centre() -> (r: Channels)
        ensures
            r.mask() == 0x1000000,
    {
        Channels { bits: 0x1000000 }
    }
    /// Top rear-right channel.
    pub fn top_rear_right() -> (r: Channels)
        ensures
            r.mask() == 0x2000000,
    {
        Channels { bits: 0x2000000 }
    }

    /// The set of no channels.
    pub fn empty() -> (r: Channels)
        ensures
            r.mask() == 0,
    {
        Channels { bits: 0 }
    }

    /// Returns the bit mask.
    pub fn bits(&self) -> (r: u32)
        ensures
            r == self.mask(),
    {
        self.bits
    }

    /// Returns the channels of the bit mask, or `None` if it has a bit that names no channel.
    pub fn from_bits(bits: u32) -> (r: Option<Channels>)
        ensures
            r matches Some(c) ==> c.mask() == bits,
            r is Some <==> bits <= all_channel_bits(),
    {
        if bits <= 0x3ff_ffff {
            Some(Channels { bits })
        } else {
            None
        }
    }

    /// Returns the channels of the bit mask, leaving out bits that name no channel.
    pub fn from_bits_truncate(bits: u32) -> (r: Channels)
        ensures
            r.mask() == bits % 0x400_0000,
    {
        Channels { bits: bits % 0x400_0000 }
    }

    /// Returns whether every channel of `other` is in `self`.
    pub fn contains(&self, other: Channels) -> (r: bool)
        ensures
            r == (self.mask() & other.mask() == other.mask()),
    {
        self.bits & other.bits == other.bits
    }

    /// Gets the number of channels.
    pub fn len(&self) -> (r: usize)
        ensures
            r == popcount(self.mask() as nat),
    {
        let mut x = self.bits;
        let mut n: usize = 0;
        proof {
            vstd::arithmetic::power2::lemma2_to64();
            lemma_popcount_bound(x as nat, 32);
        }
        while x > 0
            invariant
                n + popcount(x as nat) == popcount(self.mask() as nat),
                n + popcount(x as nat) <= 32,
            decreases x,
        {
            proof {
                vstd::arithmetic::power2::lemma2_to64();
                lemma_popcount_bound(x as nat, 32);
            }
            n = n + (x % 2) as usize;
            x = x / 2;
        }
        n
    }

    /// Alias of `len`, by the name a channel count goes by in the decoders.
    pub fn count(&self) -> (r: usize)
        ensures
            r == popcount(self.mask() as nat),
    {
        self.len()
    }
}

/// A number below `2^k` has at most `k` set bits.
pub proof fn lemma_popcount_bound(x: nat, k: nat)
    requires
        x < vstd::arithmetic::power2::pow2(k),
    ensures
        popcount(x) <= k,
    decreases k,
{
    if k > 0 && x > 0 {
        vstd::arithmetic::power2::lemma_pow2_unfold(k);
        lemma_popcount_bound(x / 2, (k - 1) as nat);
    } else if x > 0 {
        vstd::arithmetic::power2::lemma2_to64();
    }
}

impl core::ops::BitOr for Channels {
    type Output = Channels;

    fn bitor(self, other: Channels) -> (r: Channels) {
        Channels { bits: self.bits | other.bits }
    }
}

impl BitOrSpecImpl for Channels {
    open spec fn obeys_bitor_spec() -> bool {
        true
    }

    open spec fn bitor_req(self, rhs: Channels) -> bool {
        true
    }

    closed spec fn bitor_spec(self, rhs: Channels) -> Channels {
        Channels { bits: self.bits | rhs.bits }
    }
}

/// The union of two channel sets has the union of their masks.
pub proof fn lemma_bitor_mask(a: Channels, b: Channels)
    ensures
        BitOrSpec::bitor_spec(a, b).mask() == a.mask() | b.mask(),
{
}

/// Layout describes common audio channel configurations.
#[derive(Copy, Clone, Debug, PartialEq, Eq, Structural)]
pub enum Layout {
    /// Single centre channel.
    Mono,
    /// Left and Right channels.
    Stereo,
    /// Left and Right channels with a single low-frequency channel.
    TwoPointOne,
    /// Front Left and Right, Rear Left and Right, and a single low-frequency channel.
    FivePointOne,
}

/// The channel mask of a layout.
pub open spec fn layout_mask(layout: Layout) -> u32 {
    match layout {
        Layout::Mono => 0x1,
        Layout::Stereo => 0x3,
        Layout::TwoPointOne => 0x43,
        Layout::FivePointOne => 0x6f,
    }
}

/// SignalSpec describes the characteristics of a Signal.
#[derive(Copy, Clone, Debug, PartialEq, Eq, Structural)]
pub struct SignalSpec {
    /// The signal sampling rate in hertz (Hz).
    pub rate: u32,
    /// The channel assignments of the signal.
    pub channels: Channels,
}

impl SignalSpec {
    pub fn new(rate: u32, channels: Channels) -> (r: Self)
        ensures
            r.rate == rate,
            r.channels == channels,
    {
        SignalSpec { rate, channels }
    }

    pub fn new_with_layout(rate: u32, layout: Layout) -> (r: Self)
        ensures
            r.rate == rate,
            r.channels.mask() == layout_mask(layout),
    {
        SignalSpec { rate, channels: layout_to_channels(layout) }
    }
}

/// Returns the channels of a layout.
pub fn layout_to_channels(layout: Layout) -> (r: Channels)
    ensures
        r.mask() == layout_mask(layout),
{
    match layout {
        Layout::Mono => Channels::front_left(),
        // Front left and right.
        Layout::Stereo => Channels { bits: 0x3 },
        // Front left and right, and the first low frequency channel.
        Layout::TwoPointOne => Channels { bits: 0x43 },
        // Front left, right and centre, rear left and right, and the first low frequency channel.
        Layout::FivePointOne => Channels { bits: 0x6f },
    }
}

/// `Signal` is a buffer of audio frames, one plane of samples per channel.
pub trait Signal<S: Sample> {
    /// The buffer is well formed.
    spec fn signal_wf(&self) -> bool;

    /// The maximum number of frames the buffer can hold.
    spec fn signal_capacity(&self) -> nat;

    /// The number of frames written.
    spec fn signal_frames(&self) -> nat;

    /// The number of channels.
    spec fn signal_channels(&self) -> nat;

    /// The written samples of a channel.
    spec fn channel(&self, ch: nat) -> Seq<S>;

    /// Gets the total capacity of the buffer. The capacity is the maximum number of frames a
    /// buffer can hold.
    fn capacity(&self) -> (r: usize)
        requires
            self.signal_wf(),
        ensures
            r == self.signal_capacity(),
    ;

    /// Gets the number of actual frames written to the buffer. Conversely, this also is the number
    /// of written samples in any one channel.
    fn frames(&self) -> (r: usize)
        requires
            self.signal_wf(),
        ensures
            r == self.signal_frames(),
    ;

    /// Resets the number of frames to 0 allowing the buffer to be reused.
    fn renew(&mut self)
        requires
            old(self).signal_wf(),
        ensures
            final(self).signal_wf(),
            final(self).signal_frames() == 0,
            final(self).signal_capacity() == old(self).signal_capacity(),
            final(self).signal_channels() == old(self).signal_channels(),
    ;

    /// Reserves `amount` number of frames for writing.
    fn produce(&mut self, amount: usize)
        requires
            old(self).signal_wf(),
            old(self).signal_frames() + amount <= old(self).signal_capacity(),
        ensures
            final(self).signal_wf(),
            final(self).signal_frames() == old(self).signal_frames() + amount,
            final(self).signal_capacity() == old(self).signal_capacity(),
            final(self).signal_channels() == old(self).signal_channels(),
            forall|ch: nat|
                ch < old(self).signal_channels() ==> #[trigger] final(self).channel(ch).take(
                    old(self).signal_frames() as int,
                ) == old(self).channel(ch),
    ;

    /// Gets an immutable reference to all the written samples in the specified channel.
    fn chan(&self, channel: u8) -> (r: &[S])
        requires
            self.signal_wf(),
            channel < self.signal_channels(),
        ensures
            r@ == self.channel(channel as nat),
    ;

    /// Gets a mutable reference to all the written samples in the specified channel.
    fn chan_mut(&mut self, channel: u8) -> (r: &mut [S])
        requires
            old(self).signal_wf(),
            channel < old(self).signal_channels(),
        ensures
            r@ == old(self).channel(channel as nat),
            final(r)@.len() == r@.len() ==> {
                &&& final(self).signal_wf()
                &&& final(self).signal_frames() == old(self).signal_frames()
                &&& final(self).signal_capacity() == old(self).signal_capacity()
                &&& final(self).signal_channels() == old(self).signal_channels()
                &&& final(self).channel(channel as nat) == final(r)@
                &&& forall|ch: nat|
                    ch < old(self).signal_channels() && ch != channel
                        ==> #[trigger] final(self).channel(ch) == old(self).channel(ch)
            },
    ;
}

/// A planar buffer of audio frames: the samples of each channel are stored contiguously, one
/// channel after the other, each channel having room for `capacity` frames.
pub struct AudioBuffer<S: Sample> {
    buf: Vec<S>,
    spec: SignalSpec,
    n_frames: usize,
    n_capacity: usize,
}

impl<S: Sample> AudioBuffer<S> {
    /// The buffer holds room for every channel, and no more frames than its capacity.
    pub closed spec fn wf(&self) -> bool {
        &&& self.n_frames <= self.n_capacity
        &&& self.buf@.len() == self.n_capacity * popcount(self.spec.channels.mask() as nat)
        &&& self.buf@.len() <= usize::MAX
    }

    /// The signal the buffer holds.
    pub closed spec fn signal(&self) -> SignalSpec {
        self.spec
    }

    /// All the samples of the buffer, channel after channel.
    pub closed spec fn samples(&self) -> Seq<S> {
        self.buf@
    }

    /// The signal's channel count is the number of the buffer's channels, and every channel
    /// holds the written frames.
    pub proof fn lemma_shape(&self)
        requires
            self.wf(),
        ensures
            self.signal_channels() == popcount(self.signal().channels.mask() as nat),
            self.signal_frames() <= self.signal_capacity(),
            self.signal_capacity() * self.signal_channels() <= usize::MAX,
            forall|ch: nat|
                ch < self.signal_channels() ==> #[trigger] self.channel(ch).len()
                    == self.signal_frames(),
    {
        assert forall|ch: nat| ch < self.signal_channels() implies #[trigger] self.channel(ch).len()
            == self.signal_frames() by {
            lemma_channel_in_range(
                ch,
                self.n_capacity as nat,
                self.signal_channels(),
                self.n_frames as nat,
            );
        }
    }

    /// A channel's written frames are its plane of the samples.
    pub proof fn lemma_channel_plane(&self, ch: nat)
        ensures
            self.channel(ch) == plane(self.samples(), ch, self.signal_capacity(), self.signal_frames()),
    {
    }

    /// Instantiates a buffer with room for `n_frames` frames of the given signal.
    pub fn new(n_frames: u64, spec: &SignalSpec) -> (r: Self)
        requires
            n_frames <= usize::MAX,
            n_frames * popcount(spec.channels.mask() as nat) <= usize::MAX,
        ensures
            r.wf(),
            r.signal() == *spec,
            r.signal_frames() == 0,
            r.signal_capacity() == n_frames,
            r.signal_channels() == popcount(spec.channels.mask() as nat),
    {
        let n_channels = spec.channels.len();
        proof {
            if n_channels == 0 {
                assert(n_frames as int * n_channels == 0) by (nonlinear_arith)
                    requires
                        n_channels == 0,
                ;
            } else {
                assert(n_frames as int <= n_frames * n_channels) by (nonlinear_arith)
                    requires
                        n_channels >= 1,
                ;
            }
        }
        if n_channels == 0 {
            return AudioBuffer { buf: Vec::new(), spec: *spec, n_frames: 0, n_capacity: n_frames as usize };
        }
        let n_capacity = n_frames as usize;
        let n_samples = n_capacity * n_channels;
        let mut buf: Vec<S> = Vec::new();
        let mut i: usize = 0;
        while i < n_samples
            invariant
                i <= n_samples,
                buf@.len() == i,
            decreases n_samples - i,
        {
            buf.push(S::mid());
            i = i + 1;
        }
        AudioBuffer { buf, spec: *spec, n_frames: 0, n_capacity }
    }

    /// Returns the signal the buffer holds.
    pub fn spec(&self) -> (r: &SignalSpec)
        ensures
            *r == self.signal(),
    {
        &self.spec
    }

    /// Returns the first `frames * channels` samples of the buffer.
    pub fn as_planar(&self) -> (r: &[S])
        requires
            self.wf(),
        ensures
            r@ == self.samples().take((self.signal_frames() * self.signal_channels()) as int),
    {
        let total = self.buf.len();
        let n_channels = self.spec.channels.len();
        proof {
            vstd::arithmetic::mul::lemma_mul_inequality(
                self.n_frames as int,
                self.n_capacity as int,
                n_channels as int,
            );
        }
        let n = self.n_frames * n_channels;
        let r = self.buf.as_slice();
        let (a, _b) = r.split_at(n);
        a
    }

    /// Returns the first `frames * channels` samples of the buffer for writing.
    pub fn as_planar_mut(&mut self) -> (r: &mut [S])
        requires
            old(self).wf(),
        ensures
            r@ == old(self).samples().take((old(self).signal_frames() * old(self).signal_channels()) as int),
            final(self).signal() == old(self).signal(),
            final(self).signal_frames() == old(self).signal_frames(),
            final(self).signal_capacity() == old(self).signal_capacity(),
            final(r)@.len() == r@.len() ==> final(self).wf() && final(self).samples() == final(r)@
                + old(self).samples().skip(
                (old(self).signal_frames() * old(self).signal_channels()) as int,
            ),
    {
        let total = self.buf.len();
        let n_channels = self.spec.channels.len();
        proof {
            vstd::arithmetic::mul::lemma_mul_inequality(
                self.n_frames as int,
                self.n_capacity as int,
                n_channels as int,
            );
        }
        let n = self.n_frames * n_channels;
        let s = self.buf.as_mut_slice();
        let (a, _b) = s.split_at_mut(n);
        a
    }
}

impl<S: Sample> Signal<S> for AudioBuffer<S> {
    open spec fn signal_wf(&self) -> bool {
        self.wf()
    }

    closed spec fn signal_capacity(&self) -> nat {
        self.n_capacity as nat
    }

    closed spec fn signal_frames(&self) -> nat {
        self.n_frames as nat
    }

    closed spec fn signal_channels(&self) -> nat {
        popcount(self.spec.channels.mask() as nat)
    }

    closed spec fn channel(&self, ch: nat) -> Seq<S> {
        plane(self.buf@, ch, self.n_capacity as nat, self.n_frames as nat)
    }

    fn capacity(&self) -> (r: usize) {
        self.n_capacity
    }

    fn frames(&self) -> (r: usize) {
        self.n_frames
    }

    fn renew(&mut self)
        ensures
            final(self).samples() == old(self).samples(),
            final(self).signal() == old(self).signal(),
    {
        self.n_frames = 0;
    }

    fn produce(&mut self, amount: usize)
        ensures
            final(self).samples() == old(self).samples(),
            final(self).signal() == old(self).signal(),
    {
        self.n_frames = self.n_frames + amount;
        proof {
            assert forall|ch: nat| ch < old(self).signal_channels() implies #[trigger] self.channel(
                ch,
            ).take(old(self).signal_frames() as int) == old(self).channel(ch) by {
                lemma_channel_in_range(ch, self.n_capacity as nat, self.signal_channels(), self.n_frames as nat);
                assert(self.channel(ch).take(old(self).signal_frames() as int) =~= old(
                    self,
                ).channel(ch));
            }
        }
    }

    fn chan(&self, channel: u8) -> (r: &[S]) {
        let total = self.buf.len();
        proof {
            lemma_channel_in_range(
                channel as nat,
                self.n_capacity as nat,
                self.signal_channels(),
                self.n_frames as nat,
            );
        }
        let start = channel as usize * self.n_capacity;
        let s = self.buf.as_slice();
        let (_a, rest) = s.split_at(start);
        let (c, _b) = rest.split_at(self.n_frames);
        assert(c@ =~= self.channel(channel as nat));
        c
    }

    fn chan_mut(&mut self, channel: u8) -> (r: &mut [S])
        ensures
            final(r)@.len() == r@.len() ==> final(self).signal() == old(self).signal(),
    {
        let total = self.buf.len();
        proof {
            lemma_channel_in_range(
                channel as nat,
                self.n_capacity as nat,
                self.signal_channels(),
                self.n_frames as nat,
            );
            assert forall|ch: nat|
                #![trigger self.channel(ch)]
                ch < self.signal_channels() && ch != channel implies (ch as int)
                * self.n_capacity + self.n_frames <= channel * self.n_capacity || (channel as int
                + 1) * self.n_capacity <= ch * self.n_capacity by {
                lemma_channels_apart(ch, channel as nat, self.n_capacity as nat, self.n_frames as nat);
                lemma_channel_in_range(
                    ch,
                    self.n_capacity as nat,
                    self.signal_channels(),
                    self.n_frames as nat,
                );
            }
        }
        let start = channel as usize * self.n_capacity;
        let n = self.n_frames;
        proof {
            lemma_replace_plane(
                self.buf@,
                start as int,
                n as int,
                self.n_capacity as nat,
                self.n_frames as nat,
                self.signal_channels(),
                channel as nat,
            );
        }
        let c = self.plane_mut(start, n);
        proof {
            assert(c@ =~= old(self).channel(channel as nat));
        }
        c
    }
}

impl<S: Sample> AudioBuffer<S> {
    /// Returns `n` samples of the buffer from index `start` for writing.
    fn plane_mut(&mut self, start: usize, n: usize) -> (r: &mut [S])
        requires
            start + n <= old(self).buf@.len(),
        ensures
            r@ == old(self).buf@.subrange(start as int, start + n),
            final(self).buf@ == replaced(old(self).buf@, start as int, n as int, final(r)@),
            final(self).spec == old(self).spec,
            final(self).n_frames == old(self).n_frames,
            final(self).n_capacity == old(self).n_capacity,
    {
        let s = self.buf.as_mut_slice();
        let (_a, rest) = s.split_at_mut(start);
        let (c, _b) = rest.split_at_mut(n);
        c
    }
}

/// The plane of samples of channel `ch` in a buffer whose channels have room for `capacity`
/// frames each, `frames` of which are written.
pub open spec fn plane<S>(s: Seq<S>, ch: nat, capacity: nat, frames: nat) -> Seq<S> {
    s.subrange((ch * capacity) as int, (ch * capacity + frames) as int)
}

/// `s` with its `n` samples from index `start` replaced by `r`.
pub open spec fn replaced<S>(s: Seq<S>, start: int, n: int, r: Seq<S>) -> Seq<S> {
    s.subrange(0, start) + r + s.subrange(start + n, s.len() as int)
}

/// Replacing the plane of one channel leaves the buffer's length and the other planes as they
/// were.
proof fn lemma_replace_plane<S>(
    s: Seq<S>,
    start: int,
    n: int,
    capacity: nat,
    frames: nat,
    channels: nat,
    channel: nat,
)
    requires
        channel < channels,
        frames <= capacity,
        s.len() == capacity * channels,
        start == channel * capacity,
        n == frames,
    ensures
        forall|r: Seq<S>|
            r.len() == n ==> {
                &&& (#[trigger] replaced(s, start, n, r)).len() == s.len()
                &&& plane(replaced(s, start, n, r), channel, capacity, frames) == r
                &&& forall|ch: nat|
                    ch < channels && ch != channel ==> #[trigger] plane(
                        replaced(s, start, n, r),
                        ch,
                        capacity,
                        frames,
                    ) == plane(s, ch, capacity, frames)
            },
{
    lemma_channel_in_range(channel, capacity, channels, frames);
    assert forall|r: Seq<S>| r.len() == n implies {
        &&& (#[trigger] replaced(s, start, n, r)).len() == s.len()
        &&& plane(replaced(s, start, n, r), channel, capacity, frames) == r
        &&& forall|ch: nat|
            ch < channels && ch != channel ==> #[trigger] plane(
                replaced(s, start, n, r),
                ch,
                capacity,
                frames,
            ) == plane(s, ch, capacity, frames)
    } by {
        let nb = replaced(s, start, n, r);
        assert(plane(nb, channel, capacity, frames) =~= r);
        assert forall|ch: nat| ch < channels && ch != channel implies #[trigger] plane(
            nb,
            ch,
            capacity,
            frames,
        ) == plane(s, ch, capacity, frames) by {
            lemma_channels_apart(ch, channel, capacity, frames);
            lemma_channel_in_range(ch, capacity, channels, frames);
            assert(plane(nb, ch, capacity, frames) =~= plane(s, ch, capacity, frames));
        }
    }
}

/// The planes of two different channels do not overlap.
proof fn lemma_channels_apart(a: nat, b: nat, capacity: nat, frames: nat)
    requires
        a != b,
        frames <= capacity,
    ensures
        (a as int) * capacity + frames <= b * capacity || (b as int + 1) * capacity <= a * capacity,
{
    if a < b {
        assert((a as int) * capacity + frames <= b * capacity) by (nonlinear_arith)
            requires
                a + 1 <= b,
                frames <= capacity,
        ;
    } else {
        assert((b as int + 1) * capacity <= a * capacity) by (nonlinear_arith)
            requires
                b + 1 <= a,
        ;
    }
}

/// The planes of the channels lie within the buffer.
proof fn lemma_channel_in_range(ch: nat, capacity: nat, channels: nat, frames: nat)
    requires
        ch < channels,
        frames <= capacity,
    ensures
        ch * capacity + frames <= (ch + 1) * capacity,
        (ch + 1) * capacity <= capacity * channels,
{
    assert(ch * capacity + frames <= (ch + 1) * capacity) by (nonlinear_arith)
        requires
            frames <= capacity,
    ;
    assert((ch + 1) * capacity <= capacity * channels) by (nonlinear_arith)
        requires
            ch + 1 <= channels,
    ;
}

} // verus!
