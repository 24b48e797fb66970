//! An append-only text buffer that tracks and applies indentation.
//!
//! The writer accumulates bytes while deferring the emission of pending
//! indentation until real content is written, and adjusts the running indent
//! level automatically from delimiter characters that appear in written lines.

pub mod laws;
pub mod to_bytes;
pub mod writer;

pub use to_bytes::ToBytes;
pub use writer::IndentedTextWriter;
