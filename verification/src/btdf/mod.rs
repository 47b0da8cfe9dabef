//! The binary form of TDF: the decoder reads bytes into tokens, the encoder
//! writes tokens out as bytes.

pub mod reader;
pub mod varint;
pub mod label;
pub mod des;
pub mod ser;
pub mod round_trip;
pub mod progress;
