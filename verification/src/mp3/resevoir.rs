//! The bit resevoir of MPEG audio layer 3.

use vstd::prelude::*;
use crate::errors::{Error, decode_error};
use crate::io::BufStream;

verus! {

/// The number of bytes a `BitResevoir` holds at most.
pub const RESEVOIR_CAPACITY: usize = 2048;

/// The bytes a resevoir keeps for the next frame: the last `begin` bytes of what it held, or zeros
/// if it held fewer.
pub open spec fn reused_bytes(held: Seq<u8>, begin: nat) -> Seq<u8> {
    if begin <= held.len() {
        held.subrange(held.len() - begin, held.len() as int)
    } else {
        Seq::new(begin, |i: int| 0u8)
    }
}

/// `BitResevoir` implements the bit resevoir mechanism for main_data. Since frames have a
/// deterministic length based on the bit-rate, low-complexity portions of the audio may not need
/// every byte allocated to the frame. The bit resevoir mechanism allows these unused portions of
/// frames to be used by future frames.
pub struct BitResevoir {
    buf: Vec<u8>,
    len: usize,
}

impl BitResevoir {
    #[verifier::type_invariant]
    spec fn inv(self) -> bool {
        &&& self.buf@.len() == RESEVOIR_CAPACITY
        &&& self.len <= RESEVOIR_CAPACITY
    }

    /// The bytes held in the resevoir.
    pub closed spec fn bytes(&self) -> Seq<u8> {
        self.buf@.take(self.len as int)
    }

    /// An empty resevoir.
    pub fn new() -> (r: Self)
        ensures
            r.bytes() == Seq::<u8>::empty(),
    {
        let mut buf: Vec<u8> = Vec::new();
        let mut i: usize = 0;
        while i < RESEVOIR_CAPACITY
            invariant
                i <= RESEVOIR_CAPACITY,
                buf@.len() == i,
            decreases RESEVOIR_CAPACITY - i,
        {
            buf.push(0u8);
            i = i + 1;
        }
        let r = BitResevoir { buf, len: 0 };
        assert(r.bytes() =~= Seq::<u8>::empty());
        r
    }

    /// Keeps the last `main_data_begin` bytes of the resevoir, which the next frame's main data
    /// begins with, and appends `main_data_size` bytes read from `reader` after them.
    ///
    /// If the resevoir holds fewer than `main_data_begin` bytes the stream is malformed; zeros
    /// stand in for the missing bytes.
    pub fn fill(&mut self, reader: &mut BufStream, main_data_begin: usize, main_data_size: usize) -> (r: Result<
        (),
        Error,
    >)
        requires
            main_data_begin + main_data_size <= usize::MAX,
        ensures
            final(reader).data() == old(reader).data(),
            main_data_begin + main_data_size > RESEVOIR_CAPACITY ==> r == Err::<(), Error>(
                Error::DecodeError("Invalid main_data length, will exceed resevoir buffer."),
            ) && final(self).bytes() == old(self).bytes() && final(reader).position() == old(
                reader,
            ).position(),
            main_data_begin + main_data_size <= RESEVOIR_CAPACITY ==> {
                let d = old(reader).data();
                let pos = old(reader).position();
                if pos + main_data_size <= d.len() {
                    &&& r is Ok
                    &&& final(self).bytes() == reused_bytes(old(self).bytes(), main_data_begin as nat)
                        + d.subrange(pos as int, pos + main_data_size)
                    &&& final(reader).position() == pos + main_data_size
                } else {
                    &&& r == Err::<(), Error>(crate::io::eof())
                    &&& final(self).bytes() == old(self).bytes()
                    &&& final(reader).position() == pos
                }
            },
    {
        proof {
            use_type_invariant(&*self);
        }
        // The value `main_data_begin` indicates the number of bytes from the previous frames to
        // reuse. It must always be less than or equal to maximum amount of bytes the resevoir can
        // hold taking into account the additional data being added to the resevoir.
        let main_data_end = main_data_begin + main_data_size;
        if main_data_end > self.buf.len() {
            return decode_error("Invalid main_data length, will exceed resevoir buffer.");
        }
        // Read the remaining amount of bytes from the stream.
        let fresh = reader.read_boxed_slice_bytes(main_data_size)?;
        let ghost held = self.bytes();
        let len = self.len;
        let mut buf = self.buf.clone();
        assert(buf@ =~= self.buf@);
        let mut i: usize = 0;
        // If the offset is less than or equal to the amount of data in the resevoir, shift the
        // re-used bytes to the beginning of the resevoir. Otherwise the stream is malformed, but
        // there are ways this could happen, so simply zero out the resevoir for the length of the
        // offset and pretend things are okay.
        while i < main_data_begin
            invariant
                i <= main_data_begin,
                main_data_begin <= RESEVOIR_CAPACITY,
                buf@.len() == RESEVOIR_CAPACITY,
                len <= RESEVOIR_CAPACITY,
                held == self.buf@.take(len as int),
                self.buf@.len() == RESEVOIR_CAPACITY,
                forall|k: int| 0 <= k < i ==> #[trigger] buf@[k] == reused_bytes(held, main_data_begin as nat)[k],
                forall|k: int| i <= k < RESEVOIR_CAPACITY ==> #[trigger] buf@[k] == self.buf@[k],
            decreases main_data_begin - i,
        {
            let b = if main_data_begin <= len {
                self.buf[len - main_data_begin + i]
            } else {
                0u8
            };
            buf.set(i, b);
            i = i + 1;
        }
        let mut j: usize = 0;
        while j < main_data_size
            invariant
                j <= main_data_size,
                main_data_begin + main_data_size <= RESEVOIR_CAPACITY,
                buf@.len() == RESEVOIR_CAPACITY,
                fresh@.len() == main_data_size,
                forall|k: int| 0 <= k < main_data_begin ==> #[trigger] buf@[k] == reused_bytes(held, main_data_begin as nat)[k],
                forall|k: int| 0 <= k < j ==> #[trigger] buf@[main_data_begin + k] == fresh@[k],
            decreases main_data_size - j,
        {
            buf.set(main_data_begin + j, fresh[j]);
            j = j + 1;
        }
        self.buf = buf;
        self.len = main_data_end;
        proof {
            assert(self.bytes() =~= reused_bytes(held, main_data_begin as nat) + fresh@) by {
                assert forall|k: int| 0 <= k < main_data_end implies #[trigger] self.bytes()[k] == (
                reused_bytes(held, main_data_begin as nat) + fresh@)[k] by {
                    if k >= main_data_begin {
                        assert(buf@[main_data_begin + (k - main_data_begin)] == fresh@[k - main_data_begin]);
                    }
                }
            }
        }
        Ok(())
    }

    /// Returns the bytes held in the resevoir.
    pub fn bytes_ref(&self) -> (r: &[u8])
        ensures
            r@ == self.bytes(),
    {
        proof {
            use_type_invariant(self);
        }
        let (held, _rest) = self.buf.as_slice().split_at(self.len);
        held
    }
}

} // verus!
