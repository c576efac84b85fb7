//! What decoding means: the tree that a run of bytes stands for, stated as a
//! function of the bytes, with the error that each malformed input gives.
//!
//! Every function here takes the state of a reader and gives back, on
//! success, what was read and the state of the reader after it.

use vstd::prelude::*;
use vstd::utf8::{decode_utf8, valid_utf8};
use crate::nbt::cursor::ReaderView;
use crate::nbt::error::NbtError;
use crate::nbt::kind::{kind_of_code, TagKind};
use crate::nbt::value::{NamedValue, TagValue};
use crate::nbt::wire::{i16_value, i32_value, i64_value, i8_value, u16_value, u32_value, u64_value};

verus! {

/// The number of elements that an array with the given count holds: none
/// where the count is negative.
pub open spec fn array_len(count: i32) -> nat {
    if count < 0 {
        0
    } else {
        count as nat
    }
}

/// The string at the reader: its length in 16 bits, then its UTF-8 form.
pub open spec fn parse_string(r: ReaderView) -> Result<(Seq<char>, ReaderView), NbtError> {
    if !r.has(2) {
        Err(NbtError::UnexpectedEndOfInput)
    } else {
        let len = u16_value(r.little_endian, r.next(2)) as int;
        let body = r.advance(2);
        if !body.has(len) {
            Err(NbtError::UnexpectedEndOfInput)
        } else if !valid_utf8(body.next(len)) {
            Err(NbtError::InvalidUtf8)
        } else {
            Ok((decode_utf8(body.next(len)), body.advance(len)))
        }
    }
}

/// The signed count of an array at the reader, as the number of elements
/// that follow it.
pub open spec fn parse_array_len(r: ReaderView) -> Result<(nat, ReaderView), NbtError> {
    if !r.has(4) {
        Err(NbtError::UnexpectedEndOfInput)
    } else {
        Ok((array_len(i32_value(r.little_endian, r.next(4))), r.advance(4)))
    }
}

/// The payload of the given kind at the reader.
pub open spec fn parse_payload(r: ReaderView, kind: TagKind) -> Result<
    (TagValue, ReaderView),
    NbtError,
>
    decreases r.left(), 1nat, 0nat,
{
    match kind {
        TagKind::End => Ok((TagValue::End, r)),
        TagKind::Byte => if !r.has(1) {
            Err(NbtError::UnexpectedEndOfInput)
        } else {
            Ok((TagValue::Byte(i8_value(r.bytes[r.position])), r.advance(1)))
        },
        TagKind::Short => if !r.has(2) {
            Err(NbtError::UnexpectedEndOfInput)
        } else {
            Ok((TagValue::Short(i16_value(r.little_endian, r.next(2))), r.advance(2)))
        },
        TagKind::Int => if !r.has(4) {
            Err(NbtError::UnexpectedEndOfInput)
        } else {
            Ok((TagValue::Int(i32_value(r.little_endian, r.next(4))), r.advance(4)))
        },
        TagKind::Long => if !r.has(8) {
            Err(NbtError::UnexpectedEndOfInput)
        } else {
            Ok((TagValue::Long(i64_value(r.little_endian, r.next(8))), r.advance(8)))
        },
        TagKind::Float => if !r.has(4) {
            Err(NbtError::UnexpectedEndOfInput)
        } else {
            Ok((TagValue::Float(u32_value(r.little_endian, r.next(4))), r.advance(4)))
        },
        TagKind::Double => if !r.has(8) {
            Err(NbtError::UnexpectedEndOfInput)
        } else {
            Ok((TagValue::Double(u64_value(r.little_endian, r.next(8))), r.advance(8)))
        },
        TagKind::ByteArray => match parse_array_len(r) {
            Err(e) => Err(e),
            Ok((n, body)) => if !body.has(n as int) {
                Err(NbtError::UnexpectedEndOfInput)
            } else {
                Ok(
                    (
                        TagValue::ByteArray(
                            Seq::new(n, |i: int| i8_value(body.bytes[body.position + i])),
                        ),
                        body.advance(n as int),
                    ),
                )
            },
        },
        TagKind::String => match parse_string(r) {
            Err(e) => Err(e),
            Ok((s, next)) => Ok((TagValue::String(s), next)),
        },
        TagKind::List => if !r.has(1) {
            Err(NbtError::UnexpectedEndOfInput)
        } else {
            match kind_of_code(r.bytes[r.position]) {
                None => Err(NbtError::InvalidTagKind),
                Some(element_kind) => {
                    let counted = r.advance(1);
                    if !counted.has(4) {
                        Err(NbtError::UnexpectedEndOfInput)
                    } else {
                        let count = u32_value(r.little_endian, counted.next(4));
                        match parse_elements(
                            counted.advance(4),
                            element_kind,
                            count as nat,
                            Seq::empty(),
                        ) {
                            Err(e) => Err(e),
                            Ok((elements, next)) => Ok(
                                (TagValue::List(element_kind, elements), next),
                            ),
                        }
                    }
                },
            }
        },
        TagKind::Compound => match parse_children(r, Seq::empty()) {
            Err(e) => Err(e),
            Ok((children, next)) => Ok((TagValue::Compound(children), next)),
        },
        TagKind::IntArray => match parse_array_len(r) {
            Err(e) => Err(e),
            Ok((n, body)) => if !body.has(4 * (n as int)) {
                Err(NbtError::UnexpectedEndOfInput)
            } else {
                Ok(
                    (
                        TagValue::IntArray(
                            Seq::new(
                                n,
                                |i: int| i32_value(r.little_endian, body.advance(4 * i).next(4)),
                            ),
                        ),
                        body.advance(4 * (n as int)),
                    ),
                )
            },
        },
        TagKind::LongArray => match parse_array_len(r) {
            Err(e) => Err(e),
            Ok((n, body)) => if !body.has(8 * (n as int)) {
                Err(NbtError::UnexpectedEndOfInput)
            } else {
                Ok(
                    (
                        TagValue::LongArray(
                            Seq::new(
                                n,
                                |i: int| i64_value(r.little_endian, body.advance(8 * i).next(8)),
                            ),
                        ),
                        body.advance(8 * (n as int)),
                    ),
                )
            },
        },
    }
}

/// `n` payloads of the given kind at the reader, one after the other, put
/// behind `read`, which holds those that came before.
///
/// No payload ends before it starts (`lemma_payload_goes_forward`); the
/// test on what is left is there to bound the recursion.
pub open spec fn parse_elements(r: ReaderView, kind: TagKind, n: nat, read: Seq<TagValue>) -> Result<
    (Seq<TagValue>, ReaderView),
    NbtError,
>
    decreases r.left(), 2nat, n,
{
    if n == 0 {
        Ok((read, r))
    } else {
        match parse_payload(r, kind) {
            Err(e) => Err(e),
            Ok((element, next)) => if next.left() <= r.left() {
                parse_elements(next, kind, (n - 1) as nat, read.push(element))
            } else {
                Err(NbtError::UnexpectedEndOfInput)
            },
        }
    }
}

/// The tag of the given kind at the reader, after its kind byte: its
/// identifier, then its payload. The test on what is left is there to bound
/// the recursion, and never fails.
pub open spec fn parse_tag(r: ReaderView, kind: TagKind) -> Result<
    (NamedValue, ReaderView),
    NbtError,
>
    decreases r.left(), 3nat, 0nat,
{
    match parse_string(r) {
        Err(e) => Err(e),
        Ok((id, body)) => if body.left() <= r.left() {
            match parse_payload(body, kind) {
                Err(e) => Err(e),
                Ok((data, next)) => Ok((NamedValue { id, data }, next)),
            }
        } else {
            Err(NbtError::UnexpectedEndOfInput)
        },
    }
}

/// The children of a compound at the reader, up to and with the zero byte
/// that ends them, put behind `read`, which holds those that came before.
///
/// No tag ends before it starts (`lemma_tag_goes_forward`); the test on
/// what is left is there to bound the recursion.
pub open spec fn parse_children(r: ReaderView, read: Seq<NamedValue>) -> Result<
    (Seq<NamedValue>, ReaderView),
    NbtError,
>
    decreases r.left(), 0nat, 0nat,
{
    if !r.has(1) {
        Err(NbtError::UnexpectedEndOfInput)
    } else {
        match kind_of_code(r.bytes[r.position]) {
            None => Err(NbtError::InvalidTagKind),
            Some(TagKind::End) => Ok((read, r.advance(1))),
            Some(kind) => match parse_tag(r.advance(1), kind) {
                Err(e) => Err(e),
                Ok((child, next)) => if next.left() < r.left() {
                    parse_children(next, read.push(child))
                } else {
                    Err(NbtError::UnexpectedEndOfInput)
                },
            },
        }
    }
}

/// The top-level tags from the reader to the end of its buffer, put behind
/// `read`, which holds those that came before. A zero byte between two tags
/// is passed over. The test on what is left is there to bound the
/// recursion, and never fails.
pub open spec fn parse_entries(r: ReaderView, read: Seq<NamedValue>) -> Result<
    Seq<NamedValue>,
    NbtError,
>
    decreases r.left(),
{
    if !r.has(1) {
        Ok(read)
    } else {
        match kind_of_code(r.bytes[r.position]) {
            None => Err(NbtError::InvalidTagKind),
            Some(TagKind::End) => parse_entries(r.advance(1), read),
            Some(kind) => match parse_tag(r.advance(1), kind) {
                Err(e) => Err(e),
                Ok((entry, next)) => if next.left() < r.left() {
                    parse_entries(next, read.push(entry))
                } else {
                    Err(NbtError::UnexpectedEndOfInput)
                },
            },
        }
    }
}

/// The tree that `bytes` stand for in the given byte order, or the error
/// that decoding them gives.
pub open spec fn parse_tree(little_endian: bool, bytes: Seq<u8>) -> Result<
    Seq<NamedValue>,
    NbtError,
> {
    parse_entries(ReaderView { little_endian, bytes, position: 0 }, Seq::empty())
}

/// True if `next` is `r` after it has gone forward within its buffer.
pub open spec fn went_forward(r: ReaderView, next: ReaderView) -> bool {
    &&& next == (ReaderView { position: next.position, ..r })
    &&& r.position <= next.position <= r.bytes.len()
}

/// A string that is read leaves the reader further on in its buffer.
pub proof fn lemma_string_goes_forward(r: ReaderView)
    requires
        0 <= r.position <= r.bytes.len(),
    ensures
        parse_string(r) matches Ok((_, next)) ==> went_forward(r, next) && r.position + 2
            <= next.position,
{
}

/// A payload that is read leaves the reader where it was or further on in
/// its buffer: the tests that bound the recursion of the parsing functions
/// never fail.
pub proof fn lemma_payload_goes_forward(r: ReaderView, kind: TagKind)
    requires
        0 <= r.position <= r.bytes.len(),
    ensures
        parse_payload(r, kind) matches Ok((_, next)) ==> went_forward(r, next),
    decreases r.left(), 1nat, 0nat,
{
    match kind {
        TagKind::List => {
            if r.has(1) && kind_of_code(r.bytes[r.position]) is Some && r.advance(1).has(4) {
                let element_kind = kind_of_code(r.bytes[r.position])->0;
                let count = u32_value(r.little_endian, r.advance(1).next(4));
                lemma_elements_go_forward(
                    r.advance(1).advance(4),
                    element_kind,
                    count as nat,
                    Seq::empty(),
                );
            }
        },
        TagKind::Compound => {
            lemma_children_go_forward(r, Seq::empty());
        },
        TagKind::String => {
            lemma_string_goes_forward(r);
        },
        _ => {},
    }
}

/// Elements that are read leave the reader where it was or further on in
/// its buffer.
pub proof fn lemma_elements_go_forward(
    r: ReaderView,
    kind: TagKind,
    n: nat,
    read: Seq<TagValue>,
)
    requires
        0 <= r.position <= r.bytes.len(),
    ensures
        parse_elements(r, kind, n, read) matches Ok((_, next)) ==> went_forward(r, next),
    decreases r.left(), 2nat, n,
{
    if n > 0 {
        lemma_payload_goes_forward(r, kind);
        match parse_payload(r, kind) {
            Ok((element, next)) => {
                lemma_elements_go_forward(next, kind, (n - 1) as nat, read.push(element));
            },
            Err(_) => {},
        }
    }
}

/// A tag that is read leaves the reader further on in its buffer.
pub proof fn lemma_tag_goes_forward(r: ReaderView, kind: TagKind)
    requires
        0 <= r.position <= r.bytes.len(),
    ensures
        parse_tag(r, kind) matches Ok((_, next)) ==> went_forward(r, next) && r.position + 2
            <= next.position,
    decreases r.left(), 3nat, 0nat,
{
    lemma_string_goes_forward(r);
    match parse_string(r) {
        Ok((_, body)) => {
            lemma_payload_goes_forward(body, kind);
        },
        Err(_) => {},
    }
}

/// Children that are read leave the reader further on in its buffer.
pub proof fn lemma_children_go_forward(r: ReaderView, read: Seq<NamedValue>)
    requires
        0 <= r.position <= r.bytes.len(),
    ensures
        parse_children(r, read) matches Ok((_, next)) ==> went_forward(r, next) && r.position
            < next.position,
    decreases r.left(), 0nat, 0nat,
{
    if r.has(1) {
        match kind_of_code(r.bytes[r.position]) {
            Some(TagKind::End) => {},
            Some(kind) => {
                lemma_tag_goes_forward(r.advance(1), kind);
                match parse_tag(r.advance(1), kind) {
                    Ok((child, next)) => {
                        lemma_children_go_forward(next, read.push(child));
                    },
                    Err(_) => {},
                }
            },
            None => {},
        }
    }
}

} // verus!
