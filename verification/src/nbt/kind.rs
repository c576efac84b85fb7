//! The thirteen kinds of tag and their codes on the wire.

use vstd::prelude::*;
use crate::nbt::error::NbtError;

verus! {

/// The kind of a tag. Each kind has a code, from 0 to 12, which is the byte
/// that announces it in the stream.
#[derive(Clone, Copy, Debug, PartialEq, Eq, Structural)]
pub enum TagKind {
    End,
    Byte,
    Short,
    Int,
    Long,
    Float,
    Double,
    ByteArray,
    String,
    List,
    Compound,
    IntArray,
    LongArray,
}

/// The kind that a code stands for, if it stands for one.
pub open spec fn kind_of_code(code: u8) -> Option<TagKind> {
    if code == 0 {
        Some(TagKind::End)
    } else if code == 1 {
        Some(TagKind::Byte)
    } else if code == 2 {
        Some(TagKind::Short)
    } else if code == 3 {
        Some(TagKind::Int)
    } else if code == 4 {
        Some(TagKind::Long)
    } else if code == 5 {
        Some(TagKind::Float)
    } else if code == 6 {
        Some(TagKind::Double)
    } else if code == 7 {
        Some(TagKind::ByteArray)
    } else if code == 8 {
        Some(TagKind::String)
    } else if code == 9 {
        Some(TagKind::List)
    } else if code == 10 {
        Some(TagKind::Compound)
    } else if code == 11 {
        Some(TagKind::IntArray)
    } else if code == 12 {
        Some(TagKind::LongArray)
    } else {
        None
    }
}

impl TagKind {
    /// The code of this kind, for use in contracts.
    pub open spec fn spec_code(self) -> u8 {
        match self {
            TagKind::End => 0,
            TagKind::Byte => 1,
            TagKind::Short => 2,
            TagKind::Int => 3,
            TagKind::Long => 4,
            TagKind::Float => 5,
            TagKind::Double => 6,
            TagKind::ByteArray => 7,
            TagKind::String => 8,
            TagKind::List => 9,
            TagKind::Compound => 10,
            TagKind::IntArray => 11,
            TagKind::LongArray => 12,
        }
    }

    /// The code of this kind.
    #[verifier::when_used_as_spec(spec_code)]
    pub fn code(self) -> (code: u8)
        ensures
            code == self.spec_code(),
            code <= 12,
            kind_of_code(code) == Some(self),
    {
        match self {
            TagKind::End => 0,
            TagKind::Byte => 1,
            TagKind::Short => 2,
            TagKind::Int => 3,
            TagKind::Long => 4,
            TagKind::Float => 5,
            TagKind::Double => 6,
            TagKind::ByteArray => 7,
            TagKind::String => 8,
            TagKind::List => 9,
            TagKind::Compound => 10,
            TagKind::IntArray => 11,
            TagKind::LongArray => 12,
        }
    }

    /// The kind with the given code. Codes above 12 stand for no kind.
    pub fn from_u8(value: u8) -> (kind: Result<TagKind, NbtError>)
        ensures
            kind == match kind_of_code(value) {
                Some(k) => Ok::<TagKind, NbtError>(k),
                None => Err::<TagKind, NbtError>(NbtError::InvalidTagKind),
            },
            kind is Ok <==> value <= 12,
            kind matches Ok(k) ==> k.spec_code() == value,
    {
        match value {
            0 => Ok(TagKind::End),
            1 => Ok(TagKind::Byte),
            2 => Ok(TagKind::Short),
            3 => Ok(TagKind::Int),
            4 => Ok(TagKind::Long),
            5 => Ok(TagKind::Float),
            6 => Ok(TagKind::Double),
            7 => Ok(TagKind::ByteArray),
            8 => Ok(TagKind::String),
            9 => Ok(TagKind::List),
            10 => Ok(TagKind::Compound),
            11 => Ok(TagKind::IntArray),
            12 => Ok(TagKind::LongArray),
            _ => Err(NbtError::InvalidTagKind),
        }
    }
}

/// Every kind is the kind of its own code, and no two kinds share a code.
pub proof fn lemma_code_identifies_kind(a: TagKind, b: TagKind)
    ensures
        kind_of_code(a.spec_code()) == Some(a),
        a.spec_code() == b.spec_code() ==> a == b,
{
}

} // verus!
