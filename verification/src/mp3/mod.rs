//! MPEG audio layer 3 bitstream parsing.

pub mod header;
pub mod side_info;
pub mod scale_factors;
pub mod resevoir;
pub mod requantize;
