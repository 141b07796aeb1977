use vstd::prelude::*;

verus! {

/// Failure kinds of the decoder.  Every failure is fatal to the operation in
/// which it arises; `GifEnded` is the sentinel for the file trailer and the
/// idiomatic exit of a frame loop, not a fault.
#[derive(Clone, Copy, Debug, PartialEq, Eq, Structural)]
pub enum Error {
    /// The byte source ran dry in the middle of a structure.
    FileEnded,
    /// The header is not `GIF89a`.
    WrongFiletype,
    /// A declared width or height exceeds `MAX_SIZE`.
    ImageTooBig,
    /// A graphics-control extension is not null-terminated.
    MissingBlockterminator,
    /// An unknown byte stands where a block introducer is required.
    InvalidBlockintroducer,
    /// The interlace bit is set in an image descriptor.
    InterlacingNotSupported,
    /// The trailer byte was reached: no frame is left.
    GifEnded,
    /// The image data is undecodable: a code exceeds what the dictionary can
    /// resolve, the declared initial code size is outside 2..=8, or the pixel
    /// data does not fit the declared frame area.
    InvalidSymbol,
    /// A code arrived after the stop code.
    DecoderAlreadyFinished,
    /// A chain expansion exceeded the reverse buffer.
    ReverseBufferOverflow,
    /// A renderer callback failed.
    RenderError,
    /// Rewind was requested of a source that cannot rewind.
    RewindError,
}

} // verus!
