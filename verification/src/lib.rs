//! Framing layer for the XZ container format: a stream header, one
//! compressed block, an index of the block's sizes, and a stream footer,
//! each carrying its own CRC-32 check.
//!
//! The compression transform that fills the block's payload is outside this
//! crate: callers hand in the already-compressed payload together with the
//! number of raw bytes it stands for.

pub mod bytes;
pub mod checksum;
pub mod parse;
pub mod stream;
pub mod varint;

pub use stream::encode_stream;
pub use varint::write_multibyte;
