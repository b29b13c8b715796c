use vstd::prelude::*;

verus! {

/// Every way a decode can fail. None of them is recovered inside the library.
#[derive(Debug, Clone, Copy, PartialEq, Eq, Structural)]
pub enum DecodeError {
    /// Wrong version number or magic: the input is not of this format.
    VersionMismatch,
    /// A lump, record or payload read would pass the end of the buffer.
    OutOfBounds,
    /// A cross-reference points outside the table it refers to.
    IndexOutOfRange,
    /// A fixed-length name has no NUL terminator and is not valid UTF-8.
    InvalidName,
    /// A WAD entry declares compression, for which no decoder exists.
    UnsupportedCompression,
}

} // verus!
