//! Decoder for the ASCII header that prefixes an EDM engine-data-logger file.
//!
//! The header is a short run of checksum-protected ASCII lines of the form
//! `$<tag><comma-separated payload>*<two-hex-digit checksum>` sitting in front
//! of an opaque binary body. This crate locates the boundary between the two,
//! validates each header line against its embedded XOR checksum, and decodes
//! the tagged lines into a structured [`record::HeaderRecord`].

pub mod ascii;
pub mod checksum;
pub mod decode;
pub mod errors;
pub mod record;
pub mod numbers;
pub mod scan;
pub mod tokens;
