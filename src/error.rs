use vstd::prelude::*;

verus! {

/// What went wrong while reading bytes of the container.
#[derive(Debug, Clone, Copy, PartialEq, Eq, Structural)]
pub enum IoError {
    /// A read asked for bytes past the end of the container.
    UnexpectedEof,
}

/// The failures of opening a subbook and of decoding its text.
#[derive(Debug, Clone, Copy, PartialEq, Eq, Structural)]
pub enum Error {
    /// The container could not supply the bytes asked for.
    Io(IoError),
    /// Reserved for encodings that fail validation; nothing raises it yet.
    InvalidEncoding,
    /// An escape marker was followed by a control code that has no meaning.
    InvalidControlCode(u8),
}

/// The error of a read past the end of the container.
pub open spec fn eof() -> Error {
    Error::Io(IoError::UnexpectedEof)
}

} // verus!
