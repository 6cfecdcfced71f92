//! The ways in which writing or reading a stream can fail.
use vstd::prelude::*;

verus! {

/// A failure of serialization or deserialization.
#[derive(Debug, Clone, Copy, PartialEq, Eq, Structural)]
pub enum Error {
    /// The sink did not take the bytes that were written to it.
    IoError,
    /// A region that is to be referred to in place does not start at an
    /// address that is a multiple of its type's alignment.
    AlignmentError,
    /// The tag of an optional value is neither 0 nor 1.
    InvalidTag(u8),
    /// The stream was written for a type with another fingerprint than the
    /// type that is asked for.
    FingerprintMismatch { expected: u64, found: u64 },
    /// The buffer ends before the value does.
    UnexpectedEnd,
    /// The bytes of a value are not an image of any value of its type: a
    /// character that is no Unicode scalar value, a text that is not UTF-8,
    /// or a length that the machine cannot address.
    InvalidValue,
}

} // verus!
