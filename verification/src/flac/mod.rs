//! The FLAC codec: frame headers, subframe decoding, metadata blocks and packet parsing.

pub mod arith;
pub mod subframe;
pub mod residual;
pub mod frame;
pub mod metadata;
pub mod cuesheet;
pub mod validate;
pub mod decoder;
pub mod parser;
pub mod demuxer;
pub mod laws;
pub mod code_laws;
