//! Baseline JPEG: the marker segment reader and the entropy decoder.

pub mod decoder;
pub mod header;
pub mod worning;
