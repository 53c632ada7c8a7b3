use vstd::prelude::*;

verus! {

/// The ways in which demultiplexing or decoding can fail.
#[derive(Debug, Clone, Copy, PartialEq, Eq, Structural)]
pub enum MpegError {
    /// The input ended in the middle of a syntax element.
    UnexpectedEof,
    /// A start code is missing where one is required, or a code word is invalid.
    Format,
    /// The stream uses a feature this decoder does not handle.
    Unsupported,
}

} // verus!
