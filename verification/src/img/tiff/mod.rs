//! The TIFF tag reader used for Exif data.

pub mod header;
pub mod tags;
