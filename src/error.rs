use vstd::prelude::*;

verus! {

/// The ways decoding can fail. A failed decode consumes nothing.
#[derive(Debug, Clone, Copy, PartialEq, Eq, Structural)]
pub enum DecodeError {
    /// The buffer ended before a declared-length field was complete,
    /// or a varint does not fit in 64 bits.
    TruncatedInput,
    /// A type tag outside the closed set of entry types.
    UnknownTypeTag,
    /// A text field that is not well-formed UTF-8.
    InvalidEncoding,
}

} // verus!
