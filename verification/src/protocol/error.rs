//! Payload-free protocol and resource errors.
use vstd::prelude::*;

verus! {

/// A wire-format violation. Variants carry no payload bytes.
#[derive(Debug, Clone, Copy, PartialEq, Eq, Structural)]
#[non_exhaustive]
pub enum ProtocolError {
    /// A line contains NUL, CR or LF.
    InvalidLine,
    /// A command name or keyword is not a valid token.
    InvalidToken,
    /// A server line is not a known response.
    InvalidResponse,
    /// An error code is missing, not decimal, or overflows.
    InvalidErrorCode,
    /// A percent escape is incomplete or not hexadecimal.
    InvalidEscape,
    /// A line cannot fit the wire limit.
    LineTooLong,
    /// The stream ended inside a line.
    UnexpectedEof,
}

/// A resource limit or allocation failure, without payload contents.
#[derive(Debug, Clone, Copy, PartialEq, Eq, Structural)]
#[non_exhaustive]
pub enum LimitError {
    /// The allocator could not reserve the requested storage.
    AllocationFailed,
    /// Combining lengths would overflow the platform's address space.
    LengthOverflow,
    /// The operation would exceed the buffer's fixed capacity.
    CapacityExceeded,
}

impl LimitError {
    /// The fixed, payload-free description of this error.
    pub open spec fn text(self) -> Seq<char> {
        match self {
            LimitError::AllocationFailed => "storage allocation failed"@,
            LimitError::LengthOverflow => "buffer length overflow"@,
            LimitError::CapacityExceeded => "buffer capacity exceeded"@,
        }
    }

    /// Returns the description that the error displays.
    pub fn to_string(&self) -> (s: String)
        ensures
            s@ == self.text(),
    {
        let text = match self {
            LimitError::AllocationFailed => "storage allocation failed",
            LimitError::LengthOverflow => "buffer length overflow",
            LimitError::CapacityExceeded => "buffer capacity exceeded",
        };
        text.to_string()
    }
}

} // verus!
