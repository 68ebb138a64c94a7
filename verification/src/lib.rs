//! Streaming UTF-8 decoding: code points are read one at a time from a byte
//! source, and malformed input is answered with U+FFFD rather than an error.

pub mod decoder;
pub mod reader;
pub mod scalar;
pub mod sequence;
pub mod source;
pub mod theorems;

pub use reader::UTF8Reader;
pub use scalar::{tochar, BADCHAR};
