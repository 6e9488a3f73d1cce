//! Low-level utilities shared by the codecs and formats.

pub mod bits;
