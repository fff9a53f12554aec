//! The error type of the codecs.
use vstd::prelude::*;

verus! {

/// Why a frame could not be read or written.
#[derive(Debug)]
pub enum Error {
    /// The underlying transport failed.
    IoError(std::io::Error),
    /// The line-splitting stage refused the input (a line over the length
    /// bound, or one that is not UTF-8).
    LinesParseError(tokio_util::codec::LinesCodecError),
    /// Unknown verb, wrong argument count, or an argument that is not
    /// base64 of UTF-8 text.
    InvalidFrame,
}

} // verus!
