//! Encoding: from a tag tree to its bytes.

use vstd::prelude::*;
use crate::nbt::cursor::NbtWriter;
use crate::nbt::error::NbtError;
use crate::nbt::tag::{payload_views, tag_views, NbtTag, NbtTree, TagData};
use crate::nbt::value::{
    count_i32, count_u32, i32s_bytes, i64s_bytes, i8s_bytes, payloads_bytes,
    all_homogeneous, string_bytes, tags_bytes, tree_bytes,
};
use crate::nbt::wire::{i32_bytes, i32_from_u32};

verus! {

/// The count that is written in 32 bits for a length.
fn low_u32(len: usize) -> (count: u32)
    ensures
        count == count_u32(len as nat),
{
    (len as u64 % 0x1_0000_0000) as u32
}

/// Writes a string: the length of its UTF-8 form in 16 bits, then that form.
pub fn write_string(w: &mut NbtWriter, s: &str)
    ensures
        final(w)@ == old(w)@.append(string_bytes(old(w)@.little_endian, s@)),
{
    let bytes = s.as_bytes();
    w.u16_write_to_bytes((bytes.len() % 0x1_0000) as u16);
    w.write_bytes(bytes);
    assert(w@.bytes =~= old(w)@.bytes + string_bytes(old(w)@.little_endian, s@));
}

/// Writes the signed 32-bit count of an array.
fn write_array_count(w: &mut NbtWriter, len: usize)
    ensures
        final(w)@ == old(w)@.append(i32_bytes(old(w)@.little_endian, count_i32(len as nat))),
{
    w.i32_write_to_bytes(i32_from_u32(low_u32(len)));
}

/// Writes a payload, whatever the kinds of its elements.
fn write_payload(data: &TagData, w: &mut NbtWriter)
    ensures
        final(w)@ == old(w)@.append(data@.payload_bytes(old(w)@.little_endian)),
    decreases data,
{
    let ghost le = w@.little_endian;
    let ghost start = w@.bytes;
    match data {
        TagData::End => {
            assert(w@.bytes =~= start + Seq::<u8>::empty());
        },
        TagData::Byte(v) => w.i8_write_to_bytes(*v),
        TagData::Short(v) => w.i16_write_to_bytes(*v),
        TagData::Int(v) => w.i32_write_to_bytes(*v),
        TagData::Long(v) => w.i64_write_to_bytes(*v),
        TagData::Float(bits) => w.u32_write_to_bytes(*bits),
        TagData::Double(bits) => w.u64_write_to_bytes(*bits),
        TagData::ByteArray(a) => {
            write_array_count(w, a.len());
            let ghost head = w@.bytes;
            let mut i: usize = 0;
            while i < a.len()
                invariant
                    i <= a@.len(),
                    w@.little_endian == le,
                    w@.bytes == head + i8s_bytes(a@).subrange(0, i as int),
                decreases a@.len() - i,
            {
                w.i8_write_to_bytes(a[i]);
                assert(w@.bytes =~= head + i8s_bytes(a@).subrange(0, i + 1));
                i = i + 1;
            }
            assert(w@.bytes =~= start + data@.payload_bytes(le));
        },
        TagData::String(s) => write_string(w, s.as_str()),
        TagData::List(kind, elements) => {
            w.write(kind.code());
            w.u32_write_to_bytes(low_u32(elements.len()));
            let ghost head = w@.bytes;
            let mut i: usize = 0;
            while i < elements.len()
                invariant
                    *data == TagData::List(*kind, *elements),
                    i <= elements@.len(),
                    w@.little_endian == le,
                    w@.bytes == head + payloads_bytes(le, payload_views(elements@), i as nat),
                decreases elements@.len() - i,
            {
                proof {
                    assert(decreases_to!(*data => data->List_1));
                    assert(decreases_to!(elements => elements[i as int]));
                }
                write_payload(&elements[i], w);
                assert(w@.bytes =~= head + payloads_bytes(
                    le,
                    payload_views(elements@),
                    (i + 1) as nat,
                ));
                i = i + 1;
            }
            assert(w@.bytes =~= start + data@.payload_bytes(le));
        },
        TagData::Compound(children) => {
            let mut i: usize = 0;
            while i < children.len()
                invariant
                    *data == TagData::Compound(*children),
                    i <= children@.len(),
                    w@.little_endian == le,
                    w@.bytes == start + tags_bytes(le, tag_views(children@), i as nat),
                decreases children@.len() - i,
            {
                proof {
                    assert(decreases_to!(*data => data->Compound_0));
                    assert(decreases_to!(children => children[i as int]));
                }
                let ghost before = w@.bytes;
                w.write(children[i].data.kind().code());
                write_string(w, children[i].id.as_str());
                write_payload(&children[i].data, w);
                assert(w@.bytes =~= before + tag_views(children@)[i as int].tag_bytes(le));
                assert(w@.bytes =~= start + tags_bytes(le, tag_views(children@), (i + 1) as nat));
                i = i + 1;
            }
            w.write(0);
            assert(w@.bytes =~= start + data@.payload_bytes(le));
        },
        TagData::IntArray(a) => {
            write_array_count(w, a.len());
            let ghost head = w@.bytes;
            let mut i: usize = 0;
            while i < a.len()
                invariant
                    i <= a@.len(),
                    w@.little_endian == le,
                    w@.bytes == head + i32s_bytes(le, a@, i as nat),
                decreases a@.len() - i,
            {
                w.i32_write_to_bytes(a[i]);
                assert(w@.bytes =~= head + i32s_bytes(le, a@, (i + 1) as nat));
                i = i + 1;
            }
            assert(w@.bytes =~= start + data@.payload_bytes(le));
        },
        TagData::LongArray(a) => {
            write_array_count(w, a.len());
            let ghost head = w@.bytes;
            let mut i: usize = 0;
            while i < a.len()
                invariant
                    i <= a@.len(),
                    w@.little_endian == le,
                    w@.bytes == head + i64s_bytes(le, a@, i as nat),
                decreases a@.len() - i,
            {
                w.i64_write_to_bytes(a[i]);
                assert(w@.bytes =~= head + i64s_bytes(le, a@, (i + 1) as nat));
                i = i + 1;
            }
            assert(w@.bytes =~= start + data@.payload_bytes(le));
        },
    }
}

impl TagData {
    /// Writes this payload. If a list in it holds an element of another kind
    /// than the list declares, nothing is written.
    pub fn as_bytes(&self, w: &mut NbtWriter) -> (r: Result<(), NbtError>)
        ensures
            match r {
                Ok(_) => self@.homogeneous() && final(w)@ == old(w)@.append(
                    self@.payload_bytes(old(w)@.little_endian),
                ),
                Err(e) => e == NbtError::ListElementKindMismatch && !self@.homogeneous()
                    && final(w)@ == old(w)@,
            },
    {
        if !self.is_homogeneous() {
            return Err(NbtError::ListElementKindMismatch);
        }
        write_payload(self, w);
        Ok(())
    }
}

impl NbtTag {
    /// Writes this tag: the code of its kind, its identifier, its payload.
    /// If a list in it holds an element of another kind than the list
    /// declares, nothing is written.
    pub fn as_bytes(&self, w: &mut NbtWriter) -> (r: Result<(), NbtError>)
        ensures
            match r {
                Ok(_) => self@.data.homogeneous() && final(w)@ == old(w)@.append(
                    self@.tag_bytes(old(w)@.little_endian),
                ),
                Err(e) => e == NbtError::ListElementKindMismatch && !self@.data.homogeneous()
                    && final(w)@ == old(w)@,
            },
    {
        if !self.data.is_homogeneous() {
            return Err(NbtError::ListElementKindMismatch);
        }
        w.write(self.data.kind().code());
        write_string(w, self.id.as_str());
        write_payload(&self.data, w);
        assert(w@.bytes =~= old(w)@.bytes + self@.tag_bytes(old(w)@.little_endian));
        Ok(())
    }
}

impl NbtTree {
    /// The bytes of this tree in the given byte order: its top-level tags,
    /// one after the other. Fails, on a tree in which a list holds an
    /// element of another kind than the list declares.
    pub fn as_bytes(&self, little_endian: bool) -> (r: Result<Vec<u8>, NbtError>)
        ensures
            match r {
                Ok(bytes) => all_homogeneous(self@) && bytes@ == tree_bytes(little_endian, self@),
                Err(e) => e == NbtError::ListElementKindMismatch && !all_homogeneous(self@),
            },
    {
        let entries = self.entries();
        let mut w = NbtWriter::new(little_endian);
        let mut i: usize = 0;
        while i < entries.len()
            invariant
                i <= entries@.len(),
                tag_views(entries@) == self@,
                w@.little_endian == little_endian,
                w@.bytes == tags_bytes(little_endian, tag_views(entries@), i as nat),
                forall|j: int| 0 <= j < i ==> (#[trigger] tag_views(entries@)[j]).data.homogeneous(),
            decreases entries@.len() - i,
        {
            match entries[i].as_bytes(&mut w) {
                Ok(_) => {},
                Err(e) => {
                    assert(!self@[i as int].data.homogeneous());
                    return Err(e);
                },
            }
            assert(w@.bytes =~= tags_bytes(little_endian, tag_views(entries@), (i + 1) as nat));
            i = i + 1;
        }
        Ok(w.into_bytes())
    }
}

} // verus!
