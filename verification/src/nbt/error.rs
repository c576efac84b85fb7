//! The ways in which building, encoding or decoding a tag tree can fail.

use vstd::prelude::*;

verus! {

/// A recoverable failure of the tag codec.
#[derive(Clone, Copy, Debug, PartialEq, Eq, Structural)]
pub enum NbtError {
    /// The buffer ends before the value that is being read.
    UnexpectedEndOfInput,
    /// A kind byte is not the code of any tag kind.
    InvalidTagKind,
    /// The bytes of an identifier or of a string payload are not UTF-8.
    InvalidUtf8,
    /// An element of a list is not of the kind that the list declares.
    ListElementKindMismatch,
    /// A child was added to, or looked up in, a tag that is not a compound.
    NotACompound,
}

} // verus!
