//! Streaming GIF89a decoder.
//!
//! The decoder consumes a byte stream and hands the decoded image to a
//! renderer in bursts of scan lines, one frame at a time.  The LZW image-data
//! decoder — a variable-bit-width code reader, a 4096-entry dictionary with
//! reset semantics, a chain expander and a line batcher — is specified and
//! verified against a mathematical model of the code stream and of the
//! renderer calls it produces.

pub mod byte_source;
pub mod frame_decoder;
pub mod gif_decoder;
pub mod gif_error;
pub mod lzw;
pub mod renderer;
pub mod sink;
pub mod util;
