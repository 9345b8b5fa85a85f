//! The ways loading a video or reading a frame can fail.

use vstd::prelude::*;

verus! {

/// Why a video could not be loaded.
#[derive(Debug, PartialEq, Eq, Clone, Copy, Structural)]
pub enum LoadError {
    /// Fewer than 24 bytes, or a format code that names no known format.
    MalformedHeader,
    /// The index of frames does not fit in the file.
    MalformedIndex,
}

/// Why a frame could not be read.
#[derive(Debug, PartialEq, Eq, Clone, Copy, Structural)]
pub enum FrameError {
    /// The frame id (or the time) lies past the last frame.
    EndOfVideo,
    /// The source could not be positioned at the frame's payload.
    SeekFailure,
    /// The source holds fewer bytes than the frame's payload needs.
    ShortRead,
    /// The entropy-coded payload could not be decompressed.
    CorruptPayload,
    /// The block data is shorter than the image's tiles need.
    InsufficientData,
    /// The output image holds fewer pixels than the frame has.
    BufferTooSmall,
    /// The block decoder failed, or the frame is too large to hold.
    DecodeFailure,
}

impl FrameError {
    /// A short description of the error.
    pub fn message(&self) -> &'static str {
        match self {
            FrameError::EndOfVideo => "End of video",
            FrameError::SeekFailure => "Error seeking frame data",
            FrameError::ShortRead => "Error reading frame data",
            FrameError::CorruptPayload => "Error decompressing frame data",
            FrameError::InsufficientData => "Not enough data to decode image!",
            FrameError::BufferTooSmall => "Image buffer is too small!",
            FrameError::DecodeFailure => "Error decoding frame data",
        }
    }
}

} // verus!
