//! The mathematical model of a tag tree, and the bytes that encode it.
//!
//! A tag tree in memory is viewed as a `TagValue`: the same tree with
//! sequences in place of vectors and strings. The wire format is stated here
//! once, as a function from such a value to its bytes.

use vstd::prelude::*;
use vstd::utf8::encode_utf8;
use crate::nbt::kind::TagKind;
use crate::nbt::wire::{
    i16_bytes, i32_bytes, i64_bytes, i8_byte, to_signed, u16_bytes, u32_bytes, u64_bytes,
};
use crate::seqs::first_where;

verus! {

/// The payload of a tag. `Float` and `Double` hold the bits of the number as
/// IEEE 754 lays them out, which is what the stream holds too.
pub enum TagValue {
    End,
    Byte(i8),
    Short(i16),
    Int(i32),
    Long(i64),
    Float(u32),
    Double(u64),
    ByteArray(Seq<i8>),
    String(Seq<char>),
    List(TagKind, Seq<TagValue>),
    Compound(Seq<NamedValue>),
    IntArray(Seq<i32>),
    LongArray(Seq<i64>),
}

/// A payload under its identifier.
pub struct NamedValue {
    pub id: Seq<char>,
    pub data: TagValue,
}

/// The place of the first of `children` whose identifier is `id`, or their
/// number if none has it.
pub open spec fn child_index(children: Seq<NamedValue>, id: Seq<char>) -> int {
    first_where(children, |c: NamedValue| c.id == id)
}

/// The count that is written in 16 bits for a length: the length itself
/// where it fits, else its low 16 bits.
pub open spec fn count_u16(len: nat) -> u16 {
    (len % 0x1_0000) as u16
}

/// The count that is written in 32 bits for the length of a list: the
/// length itself where it fits, else its low 32 bits.
pub open spec fn count_u32(len: nat) -> u32 {
    (len % 0x1_0000_0000) as u32
}

/// The signed count that is written in 32 bits for the length of an array:
/// the length itself where it fits, else its low 32 bits read as a signed
/// number.
pub open spec fn count_i32(len: nat) -> i32 {
    to_signed((len % 0x1_0000_0000) as int, 0x1_0000_0000) as i32
}

/// A string on the wire: the length of its UTF-8 form in 16 bits, then that
/// form.
pub open spec fn string_bytes(little_endian: bool, s: Seq<char>) -> Seq<u8> {
    u16_bytes(little_endian, count_u16(encode_utf8(s).len())) + encode_utf8(s)
}

/// The elements of a byte array on the wire.
pub open spec fn i8s_bytes(a: Seq<i8>) -> Seq<u8> {
    Seq::new(a.len(), |i: int| i8_byte(a[i]))
}

/// The first `n` elements of an int array on the wire.
pub open spec fn i32s_bytes(little_endian: bool, a: Seq<i32>, n: nat) -> Seq<u8>
    decreases n,
{
    if n == 0 || n > a.len() {
        Seq::empty()
    } else {
        i32s_bytes(little_endian, a, (n - 1) as nat) + i32_bytes(little_endian, a[n - 1])
    }
}

/// The first `n` elements of a long array on the wire.
pub open spec fn i64s_bytes(little_endian: bool, a: Seq<i64>, n: nat) -> Seq<u8>
    decreases n,
{
    if n == 0 || n > a.len() {
        Seq::empty()
    } else {
        i64s_bytes(little_endian, a, (n - 1) as nat) + i64_bytes(little_endian, a[n - 1])
    }
}

impl TagValue {
    /// The kind of this payload.
    pub open spec fn kind(self) -> TagKind {
        match self {
            TagValue::End => TagKind::End,
            TagValue::Byte(_) => TagKind::Byte,
            TagValue::Short(_) => TagKind::Short,
            TagValue::Int(_) => TagKind::Int,
            TagValue::Long(_) => TagKind::Long,
            TagValue::Float(_) => TagKind::Float,
            TagValue::Double(_) => TagKind::Double,
            TagValue::ByteArray(_) => TagKind::ByteArray,
            TagValue::String(_) => TagKind::String,
            TagValue::List(_, _) => TagKind::List,
            TagValue::Compound(_) => TagKind::Compound,
            TagValue::IntArray(_) => TagKind::IntArray,
            TagValue::LongArray(_) => TagKind::LongArray,
        }
    }

    /// True if every list in this tree, at every depth, holds only elements
    /// of the kind that it declares.
    pub open spec fn homogeneous(self) -> bool
        decreases self,
    {
        match self {
            TagValue::List(kind, elements) => forall|i: int|
                0 <= i < elements.len() ==> (#[trigger] elements[i]).kind() == kind
                    && elements[i].homogeneous(),
            TagValue::Compound(children) => forall|i: int|
                0 <= i < children.len() ==> (#[trigger] children[i]).data.homogeneous(),
            _ => true,
        }
    }

    /// The bytes of this payload. A compound ends with a zero byte; a list
    /// starts with the code of its element kind and its count; an array and
    /// a string start with their count.
    pub open spec fn payload_bytes(self, little_endian: bool) -> Seq<u8>
        decreases self,
    {
        match self {
            TagValue::End => Seq::empty(),
            TagValue::Byte(v) => seq![i8_byte(v)],
            TagValue::Short(v) => i16_bytes(little_endian, v),
            TagValue::Int(v) => i32_bytes(little_endian, v),
            TagValue::Long(v) => i64_bytes(little_endian, v),
            TagValue::Float(bits) => u32_bytes(little_endian, bits),
            TagValue::Double(bits) => u64_bytes(little_endian, bits),
            TagValue::ByteArray(a) => i32_bytes(little_endian, count_i32(a.len())) + i8s_bytes(a),
            TagValue::String(s) => string_bytes(little_endian, s),
            TagValue::List(kind, elements) => seq![kind.spec_code()] + u32_bytes(
                little_endian,
                count_u32(elements.len()),
            ) + payloads_bytes(little_endian, elements, elements.len()),
            TagValue::Compound(children) => tags_bytes(little_endian, children, children.len())
                + seq![0u8],
            TagValue::IntArray(a) => i32_bytes(little_endian, count_i32(a.len())) + i32s_bytes(
                little_endian,
                a,
                a.len(),
            ),
            TagValue::LongArray(a) => i32_bytes(little_endian, count_i32(a.len())) + i64s_bytes(
                little_endian,
                a,
                a.len(),
            ),
        }
    }
}

impl NamedValue {
    /// The bytes of this tag: the code of its kind, its identifier, its
    /// payload.
    pub open spec fn tag_bytes(self, little_endian: bool) -> Seq<u8>
        decreases self,
    {
        seq![self.data.kind().spec_code()] + string_bytes(little_endian, self.id)
            + self.data.payload_bytes(little_endian)
    }
}

/// The payloads of the first `n` of `elements`, one after the other.
pub open spec fn payloads_bytes(little_endian: bool, elements: Seq<TagValue>, n: nat) -> Seq<u8>
    decreases elements, n,
{
    if n == 0 || n > elements.len() {
        Seq::empty()
    } else {
        payloads_bytes(little_endian, elements, (n - 1) as nat) + elements[n - 1].payload_bytes(
            little_endian,
        )
    }
}

/// The first `n` of `tags`, one after the other.
pub open spec fn tags_bytes(little_endian: bool, tags: Seq<NamedValue>, n: nat) -> Seq<u8>
    decreases tags, n,
{
    if n == 0 || n > tags.len() {
        Seq::empty()
    } else {
        tags_bytes(little_endian, tags, (n - 1) as nat) + tags[n - 1].tag_bytes(little_endian)
    }
}

/// A whole stream: its top-level tags, one after the other, with nothing
/// after the last.
pub open spec fn tree_bytes(little_endian: bool, entries: Seq<NamedValue>) -> Seq<u8> {
    tags_bytes(little_endian, entries, entries.len())
}

/// True if every list in every one of `entries` is homogeneous.
pub open spec fn all_homogeneous(entries: Seq<NamedValue>) -> bool {
    forall|i: int| 0 <= i < entries.len() ==> (#[trigger] entries[i]).data.homogeneous()
}

} // verus!
