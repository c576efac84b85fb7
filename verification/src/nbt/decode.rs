//! Decoding: from bytes to the tag tree that they stand for.
//!
//! A read that fails leaves the reader where it was before the read.

use vstd::prelude::*;
use vstd::utf8::encode_utf8_decode_utf8;
use crate::nbt::cursor::{NbtReader, ReaderView};
use crate::nbt::error::NbtError;
use crate::nbt::kind::TagKind;
use crate::nbt::parse::{
    parse_array_len, parse_children, parse_elements, parse_entries, parse_payload,
    parse_string, parse_tag, parse_tree,
};
use crate::nbt::tag::{payload_views, tag_views, NbtTag, NbtTree, TagData};
use crate::nbt::text::string_from_utf8;
use crate::nbt::value::TagValue;
use crate::nbt::wire::{i32_value, i64_value, i8_value};

verus! {

/// Reads a string: its length in 16 bits, then its UTF-8 form.
pub fn read_string(r: &mut NbtReader) -> (res: Result<String, NbtError>)
    ensures
        match parse_string(old(r)@) {
            Ok((s, next)) => res matches Ok(read) && read@ == s && final(r)@ == next && next
                == (ReaderView { position: next.position, ..old(r)@ }) && old(r)@.position + 2
                <= next.position <= next.bytes.len(),
            Err(e) => res matches Err(x) && x == e && final(r)@ == old(r)@,
        },
{
    let start = r.position();
    let len = match r.u16_from_next_bytes() {
        Ok(len) => len,
        Err(e) => {
            return Err(e);
        },
    };
    let bytes = match r.take_bytes(len as usize) {
        Ok(bytes) => bytes,
        Err(e) => {
            r.rewind(start);
            return Err(e);
        },
    };
    let ghost form = bytes@;
    match string_from_utf8(bytes) {
        Some(s) => {
            proof {
                encode_utf8_decode_utf8(s@);
            }
            Ok(s)
        },
        None => {
            r.rewind(start);
            Err(NbtError::InvalidUtf8)
        },
    }
}

/// Reads the signed count of an array, as the number of elements that
/// follow it.
fn read_array_len(r: &mut NbtReader) -> (res: Result<usize, NbtError>)
    ensures
        match parse_array_len(old(r)@) {
            Ok((n, next)) => res matches Ok(len) && len == n && final(r)@ == next && next
                == old(r)@.advance(4) && old(r)@.has(4),
            Err(e) => res matches Err(x) && x == e && final(r)@ == old(r)@,
        },
{
    match r.i32_from_next_bytes() {
        Ok(count) => if count < 0 {
            Ok(0)
        } else {
            Ok(count as usize)
        },
        Err(e) => Err(e),
    }
}

/// Reads the payload of a byte array: its count, then its elements.
fn read_byte_array(r: &mut NbtReader) -> (res: Result<TagData, NbtError>)
    ensures
        match parse_payload(old(r)@, TagKind::ByteArray) {
            Ok((v, next)) => res matches Ok(data) && data@ == v && final(r)@ == next && next
                == (ReaderView { position: next.position, ..old(r)@ }) && old(r)@.position
                <= next.position <= next.bytes.len(),
            Err(e) => res matches Err(x) && x == e && final(r)@ == old(r)@,
        },
{
    let start = r.position();
    let n = match read_array_len(r) {
        Ok(n) => n,
        Err(e) => {
            return Err(e);
        },
    };
    if r.remaining() < n {
        r.rewind(start);
        return Err(NbtError::UnexpectedEndOfInput);
    }
    let ghost body = r@;
    let mut data: Vec<i8> = Vec::new();
    let mut i: usize = 0;
    while i < n
        invariant
            i <= n,
            body.has(n as int),
            body == old(r)@.advance(4),
            old(r)@.has(4),
            start == old(r)@.position,
            parse_array_len(old(r)@) == Ok::<(nat, ReaderView), NbtError>((n as nat, body)),
            r@ == body.advance(i as int),
            data@.len() == i,
            forall|j: int|
                0 <= j < i ==> #[trigger] data@[j] == i8_value(body.bytes[body.position + j]),
        decreases n - i,
    {
        match r.i8_from_next_byte() {
            Ok(v) => data.push(v),
            Err(e) => {
                r.rewind(start);
                return Err(e);
            },
        }
        i = i + 1;
    }
    assert(data@ =~= Seq::new(n as nat, |i: int| i8_value(body.bytes[body.position + i])));
    Ok(TagData::ByteArray(data))
}

/// Reads the payload of an int array: its count, then its elements.
fn read_int_array(r: &mut NbtReader) -> (res: Result<TagData, NbtError>)
    ensures
        match parse_payload(old(r)@, TagKind::IntArray) {
            Ok((v, next)) => res matches Ok(data) && data@ == v && final(r)@ == next && next
                == (ReaderView { position: next.position, ..old(r)@ }) && old(r)@.position
                <= next.position <= next.bytes.len(),
            Err(e) => res matches Err(x) && x == e && final(r)@ == old(r)@,
        },
{
    let start = r.position();
    let n = match read_array_len(r) {
        Ok(n) => n,
        Err(e) => {
            return Err(e);
        },
    };
    if r.remaining() / 4 < n {
        r.rewind(start);
        return Err(NbtError::UnexpectedEndOfInput);
    }
    let ghost body = r@;
    let mut data: Vec<i32> = Vec::new();
    let mut i: usize = 0;
    while i < n
        invariant
            i <= n,
            body.has(4 * n),
            body == old(r)@.advance(4),
            old(r)@.has(4),
            start == old(r)@.position,
            parse_array_len(old(r)@) == Ok::<(nat, ReaderView), NbtError>((n as nat, body)),
            r@ == body.advance(4 * i),
            data@.len() == i,
            forall|j: int|
                0 <= j < i ==> #[trigger] data@[j] == i32_value(
                    body.little_endian,
                    body.advance(4 * j).next(4),
                ),
        decreases n - i,
    {
        match r.i32_from_next_bytes() {
            Ok(v) => data.push(v),
            Err(e) => {
                r.rewind(start);
                return Err(e);
            },
        }
        i = i + 1;
    }
    assert(data@ =~= Seq::new(
        n as nat,
        |i: int| i32_value(body.little_endian, body.advance(4 * i).next(4)),
    ));
    Ok(TagData::IntArray(data))
}

/// Reads the payload of a long array: its count, then its elements.
fn read_long_array(r: &mut NbtReader) -> (res: Result<TagData, NbtError>)
    ensures
        match parse_payload(old(r)@, TagKind::LongArray) {
            Ok((v, next)) => res matches Ok(data) && data@ == v && final(r)@ == next && next
                == (ReaderView { position: next.position, ..old(r)@ }) && old(r)@.position
                <= next.position <= next.bytes.len(),
            Err(e) => res matches Err(x) && x == e && final(r)@ == old(r)@,
        },
{
    let start = r.position();
    let n = match read_array_len(r) {
        Ok(n) => n,
        Err(e) => {
            return Err(e);
        },
    };
    if r.remaining() / 8 < n {
        r.rewind(start);
        return Err(NbtError::UnexpectedEndOfInput);
    }
    let ghost body = r@;
    let mut data: Vec<i64> = Vec::new();
    let mut i: usize = 0;
    while i < n
        invariant
            i <= n,
            body.has(8 * n),
            body == old(r)@.advance(4),
            old(r)@.has(4),
            start == old(r)@.position,
            parse_array_len(old(r)@) == Ok::<(nat, ReaderView), NbtError>((n as nat, body)),
            r@ == body.advance(8 * i),
            data@.len() == i,
            forall|j: int|
                0 <= j < i ==> #[trigger] data@[j] == i64_value(
                    body.little_endian,
                    body.advance(8 * j).next(8),
                ),
        decreases n - i,
    {
        match r.i64_from_next_bytes() {
            Ok(v) => data.push(v),
            Err(e) => {
                r.rewind(start);
                return Err(e);
            },
        }
        i = i + 1;
    }
    assert(data@ =~= Seq::new(
        n as nat,
        |i: int| i64_value(body.little_endian, body.advance(8 * i).next(8)),
    ));
    Ok(TagData::LongArray(data))
}

/// Reads the payload of a list: the code of its element kind, its count,
/// then its elements.
fn read_list(r: &mut NbtReader) -> (res: Result<TagData, NbtError>)
    ensures
        match parse_payload(old(r)@, TagKind::List) {
            Ok((v, next)) => res matches Ok(data) && data@ == v && final(r)@ == next && next
                == (ReaderView { position: next.position, ..old(r)@ }) && old(r)@.position
                <= next.position <= next.bytes.len(),
            Err(e) => res matches Err(x) && x == e && final(r)@ == old(r)@,
        },
    decreases old(r)@.left(), 0nat,
{
    let start = r.position();
    let code = match r.next_byte() {
        Ok(code) => code,
        Err(e) => {
            return Err(e);
        },
    };
    let element_kind = match TagKind::from_u8(code) {
        Ok(k) => k,
        Err(e) => {
            r.rewind(start);
            return Err(e);
        },
    };
    let count = match r.u32_from_next_bytes() {
        Ok(count) => count,
        Err(e) => {
            r.rewind(start);
            return Err(e);
        },
    };
    let ghost body = r@;
    let mut elements: Vec<TagData> = Vec::new();
    let mut i: u32 = 0;
    assert(payload_views(elements@) =~= Seq::empty());
    while i < count
        invariant
            i <= count,
            body == old(r)@.advance(5),
            old(r)@.has(5),
            start == old(r)@.position,
            r@ == (ReaderView { position: r@.position, ..body }),
            body.position <= r@.position <= body.bytes.len(),
            parse_payload(old(r)@, TagKind::List) == match parse_elements(
                r@,
                element_kind,
                (count - i) as nat,
                payload_views(elements@),
            ) {
                Err(e) => Err::<(TagValue, ReaderView), NbtError>(e),
                Ok((all, next)) => Ok((TagValue::List(element_kind, all), next)),
            },
        decreases count - i,
    {
        let ghost before = elements@;
        match read_payload(r, element_kind) {
            Ok(element) => {
                elements.push(element);
                proof {
                    assert(payload_views(elements@) =~= payload_views(before).push(element@));
                }
            },
            Err(e) => {
                r.rewind(start);
                return Err(e);
            },
        }
        i = i + 1;
    }
    Ok(TagData::List(element_kind, elements))
}

/// Reads the payload of a compound: its children, then the zero byte that
/// ends them.
fn read_compound(r: &mut NbtReader) -> (res: Result<TagData, NbtError>)
    ensures
        match parse_payload(old(r)@, TagKind::Compound) {
            Ok((v, next)) => res matches Ok(data) && data@ == v && final(r)@ == next && next
                == (ReaderView { position: next.position, ..old(r)@ }) && old(r)@.position
                <= next.position <= next.bytes.len(),
            Err(e) => res matches Err(x) && x == e && final(r)@ == old(r)@,
        },
    decreases old(r)@.left(), 0nat,
{
    let start = r.position();
    let mut children: Vec<NbtTag> = Vec::new();
    assert(tag_views(children@) =~= Seq::empty());
    loop
        invariant
            start == old(r)@.position,
            r@ == (ReaderView { position: r@.position, ..old(r)@ }),
            old(r)@.position <= r@.position <= r@.bytes.len(),
            parse_children(old(r)@, Seq::empty()) == parse_children(r@, tag_views(children@)),
        decreases r@.left(),
    {
        let ghost before = children@;
        let code = match r.next_byte() {
            Ok(code) => code,
            Err(e) => {
                r.rewind(start);
                return Err(e);
            },
        };
        let child_kind = match TagKind::from_u8(code) {
            Ok(k) => k,
            Err(e) => {
                r.rewind(start);
                return Err(e);
            },
        };
        if child_kind == TagKind::End {
            return Ok(TagData::Compound(children));
        }
        match read_tag(r, child_kind) {
            Ok(child) => {
                children.push(child);
                proof {
                    assert(tag_views(children@) =~= tag_views(before).push(child@));
                }
            },
            Err(e) => {
                r.rewind(start);
                return Err(e);
            },
        }
    }
}

/// Reads the payload of the given kind.
fn read_payload(r: &mut NbtReader, kind: TagKind) -> (res: Result<TagData, NbtError>)
    ensures
        match parse_payload(old(r)@, kind) {
            Ok((v, next)) => res matches Ok(data) && data@ == v && final(r)@ == next && next
                == (ReaderView { position: next.position, ..old(r)@ }) && old(r)@.position
                <= next.position <= next.bytes.len(),
            Err(e) => res matches Err(x) && x == e && final(r)@ == old(r)@,
        },
    decreases old(r)@.left(), 1nat,
{
    match kind {
        TagKind::End => {
            let _here = r.position();
            Ok(TagData::End)
        },
        TagKind::Byte => match r.i8_from_next_byte() {
            Ok(v) => Ok(TagData::Byte(v)),
            Err(e) => Err(e),
        },
        TagKind::Short => match r.i16_from_next_bytes() {
            Ok(v) => Ok(TagData::Short(v)),
            Err(e) => Err(e),
        },
        TagKind::Int => match r.i32_from_next_bytes() {
            Ok(v) => Ok(TagData::Int(v)),
            Err(e) => Err(e),
        },
        TagKind::Long => match r.i64_from_next_bytes() {
            Ok(v) => Ok(TagData::Long(v)),
            Err(e) => Err(e),
        },
        TagKind::Float => match r.u32_from_next_bytes() {
            Ok(bits) => Ok(TagData::Float(bits)),
            Err(e) => Err(e),
        },
        TagKind::Double => match r.u64_from_next_bytes() {
            Ok(bits) => Ok(TagData::Double(bits)),
            Err(e) => Err(e),
        },
        TagKind::ByteArray => read_byte_array(r),
        TagKind::String => match read_string(r) {
            Ok(s) => Ok(TagData::String(s)),
            Err(e) => Err(e),
        },
        TagKind::List => read_list(r),
        TagKind::Compound => read_compound(r),
        TagKind::IntArray => read_int_array(r),
        TagKind::LongArray => read_long_array(r),
    }
}

/// Reads the tag of the given kind, after its kind byte: its identifier,
/// then its payload.
fn read_tag(r: &mut NbtReader, kind: TagKind) -> (res: Result<NbtTag, NbtError>)
    ensures
        match parse_tag(old(r)@, kind) {
            Ok((v, next)) => res matches Ok(tag) && tag@ == v && final(r)@ == next && next
                == (ReaderView { position: next.position, ..old(r)@ }) && old(r)@.position + 2
                <= next.position <= next.bytes.len(),
            Err(e) => res matches Err(x) && x == e && final(r)@ == old(r)@,
        },
    decreases old(r)@.left(), 2nat,
{
    let start = r.position();
    let id = match read_string(r) {
        Ok(id) => id,
        Err(e) => {
            return Err(e);
        },
    };
    match read_payload(r, kind) {
        Ok(data) => Ok(NbtTag { id, data }),
        Err(e) => {
            r.rewind(start);
            Err(e)
        },
    }
}

impl TagData {
    /// Reads the payload of the given kind. On failure the reader is left
    /// where it was.
    pub fn from_bytes(r: &mut NbtReader, kind: &TagKind) -> (res: Result<TagData, NbtError>)
        ensures
            match parse_payload(old(r)@, *kind) {
                Ok((v, next)) => res matches Ok(data) && data@ == v && final(r)@ == next,
                Err(e) => res matches Err(x) && x == e && final(r)@ == old(r)@,
            },
    {
        read_payload(r, *kind)
    }
}

impl NbtTag {
    /// Reads the tag of the given kind, after its kind byte: its identifier,
    /// then its payload. On failure the reader is left where it was.
    pub fn from_bytes(r: &mut NbtReader, kind: &TagKind) -> (res: Result<NbtTag, NbtError>)
        ensures
            match parse_tag(old(r)@, *kind) {
                Ok((v, next)) => res matches Ok(tag) && tag@ == v && final(r)@ == next,
                Err(e) => res matches Err(x) && x == e && final(r)@ == old(r)@,
            },
    {
        read_tag(r, *kind)
    }
}

impl NbtTree {
    /// The tree that `bytes` stand for in the given byte order: tag after
    /// tag, to the end of the buffer.
    pub fn from_bytes(little_endian: bool, bytes: Vec<u8>) -> (res: Result<NbtTree, NbtError>)
        ensures
            match parse_tree(little_endian, bytes@) {
                Ok(entries) => res matches Ok(tree) && tree@ == entries,
                Err(e) => res matches Err(x) && x == e,
            },
    {
        let mut r = NbtReader::new(little_endian, bytes);
        let mut entries: Vec<NbtTag> = Vec::new();
        assert(tag_views(entries@) =~= Seq::empty());
        while !r.read_all()
            invariant
                r@ == (ReaderView { little_endian, bytes: bytes@, position: r@.position }),
                0 <= r@.position <= r@.bytes.len(),
                parse_tree(little_endian, bytes@) == parse_entries(r@, tag_views(entries@)),
            decreases r@.left(),
        {
            let ghost before = entries@;
            let code = match r.next_byte() {
                Ok(code) => code,
                Err(e) => {
                    return Err(e);
                },
            };
            let kind = match TagKind::from_u8(code) {
                Ok(kind) => kind,
                Err(e) => {
                    return Err(e);
                },
            };
            if kind != TagKind::End {
                match read_tag(&mut r, kind) {
                    Ok(entry) => {
                        entries.push(entry);
                        proof {
                            assert(tag_views(entries@) =~= tag_views(before).push(entry@));
                        }
                    },
                    Err(e) => {
                        return Err(e);
                    },
                }
            }
        }
        Ok(NbtTree::new(entries))
    }
}

} // verus!
