//! Typed extraction of calibration data: ASAP2 (A2L) metadata resolution,
//! Intel HEX memory images and typed decoding of raw bytes.
pub mod a2l;
pub mod compu_method;
pub mod decode;
pub mod extractor;
pub mod hex_reader;
pub mod raw_bytes;
pub mod resolver;
pub mod text;
pub mod types;
