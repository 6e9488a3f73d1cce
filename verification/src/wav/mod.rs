//! The RIFF WAVE format.

pub mod chunks;
pub mod reader;
