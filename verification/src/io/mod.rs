//! Byte and bit level reading of in-memory media data.

pub mod bits_model;
mod buf_stream;
mod bit;
pub mod huffman;
pub mod media;
mod utf8;

pub use buf_stream::{BufStream, FiniteStream, be_val, le_val, eof, scan_stop, advanced_by, total_of, lemma_position_counts_reads};
pub use bit::{BitReaderLtr, BitStreamLtr};
pub use media::{MediaSource, MediaSourceStream, MemorySource};
pub(crate) use bit::{pow2_u32, pow2_u64};
pub use utf8::{utf8_decode_be_u64, utf8_continuations, utf8_lead_bits, utf8_fold, utf8_number};
