use vstd::prelude::*;

verus! {

/// Why a buffer could not be read as a wave file, or a sample could not be read.
#[derive(Debug, Clone, Copy, PartialEq, Eq, Structural)]
pub enum WavError {
    /// The `RIFF` envelope is absent, shorter than twelve bytes, of another form,
    /// or declares a size other than the buffer's length less eight.
    MalformedHeader,
    /// A chunk declares more payload than the buffer still holds.
    TruncatedChunk,
    /// The `fmt ` payload is too short or describes an impossible layout.
    MalformedChunk,
    /// The encoding is not one this library can decode.
    UnsupportedFormat,
    /// The buffer lacks a `fmt ` or a `data` chunk.
    MissingRequiredChunk,
    /// A channel or frame index lies beyond the data.
    IndexOutOfRange,
}

} // verus!
