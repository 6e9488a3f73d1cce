//! Ogg container pages and logical streams.

pub mod page;
pub mod logical;
pub mod physical;
pub mod mappings;
pub mod laws;
