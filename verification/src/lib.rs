//! A codec for the WKB (Well-Known Binary) geometry interchange format.
//!
//! The decoder interprets a byte buffer as a typed, randomly accessible
//! geometry view without copying coordinate data; the encoder serialises a
//! geometry into the same byte layout, in either byte order. Coordinates are
//! handled as the 64 raw bits of an IEEE-754 double, so the codec itself is
//! pure integer logic.

pub mod bytes;
mod common;
pub mod decoding;
pub mod encoding;
pub mod geom;
pub mod reader;
pub mod roundtrip;
pub mod writer;

pub use common::{Endianness, WKBDimension, WKBError, WKBType};
