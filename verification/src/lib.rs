//! Sonata: audio decoding and media demuxing primitives with machine-checked contracts.

pub mod util;
pub mod errors;
pub mod io;
pub mod sample;
pub mod conv;
pub mod flac;
pub mod checksum;
pub mod audio;
pub mod codecs;
pub mod tags;
pub mod formats;
pub mod mp3;
pub mod pcm;
pub mod opus;
pub mod id3v2;
pub mod wav;
pub mod ogg;
pub mod defaults;
