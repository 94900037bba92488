//! Decode errors: a kind plus the byte offset at which it was detected.

use vstd::prelude::*;

verus! {

/// What went wrong while decoding a module.
#[derive(Clone, Copy, Debug, PartialEq, Eq, Structural)]
pub enum ErrorKind {
    /// Fewer bytes remained than a read requested.
    UnexpectedEof,
    /// A variable-length integer's magnitude exceeds the target width.
    Leb128Overflow,
    /// A variable-length integer continues past its maximum byte count,
    /// or carries non-canonical trailing padding.
    Leb128Malformed,
    /// The module does not begin with the 4-byte magic `\0asm`.
    BadMagic,
    /// The 4-byte version field is not 1.
    UnsupportedVersion,
    /// A section decoder did not consume exactly the declared byte length.
    SectionLengthMismatch,
    /// A byte that should classify a value type (or an import/export
    /// descriptor) matches no known encoding; carries the byte.
    UnknownValueType(u8),
    /// A function type does not begin with the form byte 0x60.
    InvalidFuncTypeForm,
    /// An export references an index at or beyond the size of its index space.
    ExportIndexOutOfRange,
    /// A singleton section id appeared a second time.
    DuplicateSection,
    /// A length-prefixed count exceeds the bytes remaining in its region.
    AllocationLimitExceeded,
}

/// A decode failure: the kind of error and the byte offset where it was
/// detected.  Offsets are absolute within the buffer handed to the decoder.
#[derive(Clone, Copy, Debug, PartialEq, Eq, Structural)]
pub struct DecodeError {
    pub kind: ErrorKind,
    pub offset: usize,
}

/// Builds a `DecodeError`; shared by the specification and the executable
/// decoders so that their results can be compared syntactically.
pub open spec fn spec_err(kind: ErrorKind, offset: int) -> DecodeError {
    DecodeError { kind, offset: offset as usize }
}

impl DecodeError {
    /// Executable constructor, equal to `spec_err` on in-range offsets.
    pub fn at(kind: ErrorKind, offset: usize) -> (r: DecodeError)
        ensures
            r == spec_err(kind, offset as int),
    {
        DecodeError { kind, offset }
    }
}

} // verus!
