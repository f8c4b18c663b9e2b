//! Error types for header, name and section decoding.
use vstd::prelude::*;

verus! {

/// A failure while interpreting decoded bytes.
#[derive(Debug, Clone, PartialEq, Eq, Structural)]
pub enum ParseError {
    /// A field's numeric value maps to no defined variant.
    ConversionError,
    /// The value is syntactically reserved for future use rather than invalid.
    UnimplementedError,
    /// The reserved header field does not fit in its three bits.
    OverflowError { found: u8 },
    /// A domain label held an invalid character, or resource data ran out.
    SectionError,
    /// A compression-pointer chain broke the decoder's jump rules.
    JumpError,
}

/// A failure of the bounds-checked byte cursor itself.
#[derive(Debug, Clone, PartialEq, Eq, Structural)]
pub enum UdpBufferError {
    /// A read past the fixed 512-byte capacity.
    EndOfBuffer,
    /// A seek to an index outside the buffer, carrying that index.
    Seek { index: usize },
}

/// Either kind of failure, as message decoding can surface both.
#[derive(Debug, Clone, PartialEq, Eq, Structural)]
pub enum UnpackError {
    Parse(ParseError),
    Buffer(UdpBufferError),
}

} // verus!
