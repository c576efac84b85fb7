//! Tag trees in memory: payloads, named tags and whole trees, with the
//! operations that build them.

use vstd::prelude::*;
use crate::nbt::error::NbtError;
use crate::nbt::kind::TagKind;
use crate::nbt::text::str_eq;
use crate::nbt::value::{child_index, NamedValue, TagValue};
use crate::seqs::lemma_first_where_is;

verus! {

/// The payload of a tag. `Float` and `Double` hold the bits of the number as
/// IEEE 754 lays them out.
#[derive(Debug, PartialEq)]
pub enum TagData {
    End,
    Byte(i8),
    Short(i16),
    Int(i32),
    Long(i64),
    Float(u32),
    Double(u64),
    ByteArray(Vec<i8>),
    String(String),
    List(TagKind, Vec<TagData>),
    Compound(Vec<NbtTag>),
    IntArray(Vec<i32>),
    LongArray(Vec<i64>),
}

/// A payload under its identifier.
#[derive(Debug, PartialEq)]
pub struct NbtTag {
    pub id: String,
    pub data: TagData,
}

/// The views of the payloads in `v`, in order.
pub open spec fn payload_views(v: Seq<TagData>) -> Seq<TagValue>
    decreases v,
{
    Seq::new(
        v.len(),
        |i: int|
            if 0 <= i < v.len() {
                v[i]@
            } else {
                arbitrary()
            },
    )
}

/// The views of the tags in `v`, in order.
pub open spec fn tag_views(v: Seq<NbtTag>) -> Seq<NamedValue>
    decreases v,
{
    Seq::new(
        v.len(),
        |i: int|
            if 0 <= i < v.len() {
                v[i]@
            } else {
                arbitrary()
            },
    )
}

impl View for TagData {
    type V = TagValue;

    open spec fn view(&self) -> TagValue
        decreases self,
    {
        match self {
            TagData::End => TagValue::End,
            TagData::Byte(v) => TagValue::Byte(*v),
            TagData::Short(v) => TagValue::Short(*v),
            TagData::Int(v) => TagValue::Int(*v),
            TagData::Long(v) => TagValue::Long(*v),
            TagData::Float(bits) => TagValue::Float(*bits),
            TagData::Double(bits) => TagValue::Double(*bits),
            TagData::ByteArray(a) => TagValue::ByteArray(a@),
            TagData::String(s) => TagValue::String(s@),
            TagData::List(kind, elements) => TagValue::List(*kind, payload_views(elements@)),
            TagData::Compound(children) => TagValue::Compound(tag_views(children@)),
            TagData::IntArray(a) => TagValue::IntArray(a@),
            TagData::LongArray(a) => TagValue::LongArray(a@),
        }
    }
}

impl View for NbtTag {
    type V = NamedValue;

    open spec fn view(&self) -> NamedValue
        decreases self,
    {
        NamedValue { id: self.id@, data: self.data@ }
    }
}

impl TagData {
    /// The kind of this payload.
    pub fn kind(&self) -> (kind: TagKind)
        ensures
            kind == self@.kind(),
    {
        match self {
            TagData::End => TagKind::End,
            TagData::Byte(..) => TagKind::Byte,
            TagData::Short(..) => TagKind::Short,
            TagData::Int(..) => TagKind::Int,
            TagData::Long(..) => TagKind::Long,
            TagData::Float(..) => TagKind::Float,
            TagData::Double(..) => TagKind::Double,
            TagData::ByteArray(..) => TagKind::ByteArray,
            TagData::String(..) => TagKind::String,
            TagData::List(..) => TagKind::List,
            TagData::Compound(..) => TagKind::Compound,
            TagData::IntArray(..) => TagKind::IntArray,
            TagData::LongArray(..) => TagKind::LongArray,
        }
    }

    /// A list of the given kind. Fails if an element is of another kind.
    pub fn list(kind: TagKind, elements: Vec<TagData>) -> (r: Result<TagData, NbtError>)
        ensures
            match r {
                Ok(list) => list@ == TagValue::List(kind, payload_views(elements@)) && forall|
                    i: int,
                |
                    0 <= i < elements@.len() ==> (#[trigger] elements@[i])@.kind() == kind,
                Err(e) => e == NbtError::ListElementKindMismatch && exists|i: int|
                    0 <= i < elements@.len() && (#[trigger] elements@[i])@.kind() != kind,
            },
    {
        let mut i: usize = 0;
        while i < elements.len()
            invariant
                i <= elements@.len(),
                forall|j: int| 0 <= j < i ==> (#[trigger] elements@[j])@.kind() == kind,
            decreases elements@.len() - i,
        {
            if elements[i].kind() != kind {
                return Err(NbtError::ListElementKindMismatch);
            }
            i = i + 1;
        }
        Ok(TagData::List(kind, elements))
    }

    /// Appends a child to a compound. Any other tag is left as it is.
    pub fn add_tag(&mut self, id: &str, data: TagData) -> (r: Result<(), NbtError>)
        ensures
            match old(self)@ {
                TagValue::Compound(children) => r is Ok && final(self)@ == TagValue::Compound(
                    children.push(NamedValue { id: id@, data: data@ }),
                ),
                _ => r == Err::<(), NbtError>(NbtError::NotACompound) && *final(self) == *old(self),
            },
    {
        match self {
            TagData::Compound(tags) => {
                let ghost before = tags@;
                tags.push(NbtTag { id: id.to_owned(), data });
                proof {
                    assert(tag_views(tags@) =~= tag_views(before).push(
                        NamedValue { id: id@, data: data@ },
                    ));
                }
                Ok(())
            },
            _ => Err(NbtError::NotACompound),
        }
    }

    /// The payload of the first child of a compound that has the given
    /// identifier; `None` if no child has it.
    pub fn find_child(&self, id: &str) -> (r: Result<Option<&TagData>, NbtError>)
        ensures
            match self@ {
                TagValue::Compound(children) => {
                    let i = child_index(children, id@);
                    match r {
                        Ok(Some(child)) => 0 <= i < children.len() && child@ == children[i].data,
                        Ok(None) => i == children.len(),
                        Err(_) => false,
                    }
                },
                _ => r matches Err(e) && e == NbtError::NotACompound,
            },
    {
        match self {
            TagData::Compound(tags) => {
                let mut i: usize = 0;
                while i < tags.len()
                    invariant
                        i <= tags@.len(),
                        forall|j: int| 0 <= j < i ==> (#[trigger] tag_views(tags@)[j]).id != id@,
                    ensures
                        i <= tags@.len(),
                        forall|j: int| 0 <= j < i ==> (#[trigger] tag_views(tags@)[j]).id != id@,
                        i < tags@.len() ==> tag_views(tags@)[i as int].id == id@,
                    decreases tags@.len() - i,
                {
                    if str_eq(tags[i].id.as_str(), id) {
                        break;
                    }
                    i = i + 1;
                }
                proof {
                    lemma_first_where_is(tag_views(tags@), |c: NamedValue| c.id == id@, i as int);
                }
                if i < tags.len() {
                    Ok(Some(&tags[i].data))
                } else {
                    Ok(None)
                }
            },
            _ => Err(NbtError::NotACompound),
        }
    }

    /// The payload of the first child of a compound that has the given
    /// identifier, to be changed in place; `None` if no child has it.
    pub fn find_child_mut(&mut self, id: &str) -> (r: Result<Option<&mut TagData>, NbtError>)
        ensures
            match old(self)@ {
                TagValue::Compound(children) => {
                    let i = child_index(children, id@);
                    match r {
                        Ok(Some(child)) => 0 <= i < children.len() && child@ == children[i].data
                            && final(self)@ == TagValue::Compound(
                            children.update(i, (NamedValue { id: id@, data: final(child)@ })),
                        ),
                        Ok(None) => i == children.len() && *final(self) == *old(self),
                        Err(_) => false,
                    }
                },
                _ => r matches Err(e) && e == NbtError::NotACompound && *final(self) == *old(self),
            },
    {
        match self {
            TagData::Compound(tags) => {
                let mut i: usize = 0;
                while i < tags.len()
                    invariant
                        i <= tags@.len(),
                        forall|j: int| 0 <= j < i ==> (#[trigger] tag_views(tags@)[j]).id != id@,
                    ensures
                        i <= tags@.len(),
                        forall|j: int| 0 <= j < i ==> (#[trigger] tag_views(tags@)[j]).id != id@,
                        i < tags@.len() ==> tag_views(tags@)[i as int].id == id@,
                    decreases tags@.len() - i,
                {
                    if str_eq(tags[i].id.as_str(), id) {
                        break;
                    }
                    i = i + 1;
                }
                proof {
                    lemma_first_where_is(tag_views(tags@), |c: NamedValue| c.id == id@, i as int);
                }
                if i < tags.len() {
                    let ghost before = tags@;
                    let child = &mut tags[i].data;
                    proof {
                        let after = before.update(
                            i as int,
                            NbtTag { id: before[i as int].id, data: *final(child) },
                        );
                        assert(tag_views(after) =~= tag_views(before).update(
                            i as int,
                            NamedValue { id: id@, data: final(child)@ },
                        ));
                    }
                    Ok(Some(child))
                } else {
                    Ok(None)
                }
            },
            _ => Err(NbtError::NotACompound),
        }
    }

    /// True if and only if every list in this tree, at every depth, holds
    /// only elements of the kind that it declares.
    pub fn is_homogeneous(&self) -> (b: bool)
        ensures
            b == self@.homogeneous(),
        decreases self,
    {
        match self {
            TagData::List(kind, elements) => {
                let mut i: usize = 0;
                while i < elements.len()
                    invariant
                        *self == TagData::List(*kind, *elements),
                        i <= elements@.len(),
                        forall|j: int|
                            0 <= j < i ==> (#[trigger] payload_views(elements@)[j]).kind() == *kind
                                && payload_views(elements@)[j].homogeneous(),
                    decreases elements@.len() - i,
                {
                    proof {
                        assert(decreases_to!(*self => self->List_1));
                        assert(decreases_to!(elements => elements[i as int]));
                    }
                    if elements[i].kind() != *kind || !elements[i].is_homogeneous() {
                        assert(!(payload_views(elements@)[i as int].kind() == *kind
                            && payload_views(elements@)[i as int].homogeneous()));
                        return false;
                    }
                    i = i + 1;
                }
                true
            },
            TagData::Compound(children) => {
                let mut i: usize = 0;
                while i < children.len()
                    invariant
                        *self == TagData::Compound(*children),
                        i <= children@.len(),
                        forall|j: int|
                            0 <= j < i ==> (#[trigger] tag_views(children@)[j]).data.homogeneous(),
                    decreases children@.len() - i,
                {
                    proof {
                        assert(decreases_to!(*self => self->Compound_0));
                        assert(decreases_to!(children => children[i as int]));
                    }
                    if !children[i].data.is_homogeneous() {
                        assert(!tag_views(children@)[i as int].data.homogeneous());
                        return false;
                    }
                    i = i + 1;
                }
                true
            },
            _ => true,
        }
    }
}

impl Clone for TagData {
    /// A copy of this tree.
    fn clone(&self) -> (copy: TagData)
        ensures
            copy@ == self@,
        decreases self,
    {
        match self {
            TagData::End => TagData::End,
            TagData::Byte(v) => TagData::Byte(*v),
            TagData::Short(v) => TagData::Short(*v),
            TagData::Int(v) => TagData::Int(*v),
            TagData::Long(v) => TagData::Long(*v),
            TagData::Float(bits) => TagData::Float(*bits),
            TagData::Double(bits) => TagData::Double(*bits),
            TagData::ByteArray(a) => {
                let copy = a.clone();
                assert(copy@ =~= a@);
                TagData::ByteArray(copy)
            },
            TagData::String(s) => TagData::String(s.clone()),
            TagData::List(kind, elements) => {
                let mut copy: Vec<TagData> = Vec::new();
                let mut i: usize = 0;
                while i < elements.len()
                    invariant
                        *self == TagData::List(*kind, *elements),
                        i <= elements@.len(),
                        copy@.len() == i,
                        forall|j: int| 0 <= j < i ==> (#[trigger] copy@[j])@ == elements@[j]@,
                    decreases elements@.len() - i,
                {
                    proof {
                        assert(decreases_to!(*self => self->List_1));
                        assert(decreases_to!(elements => elements[i as int]));
                    }
                    copy.push(elements[i].clone());
                    i = i + 1;
                }
                assert(payload_views(copy@) =~= payload_views(elements@));
                TagData::List(*kind, copy)
            },
            TagData::Compound(children) => {
                let mut copy: Vec<NbtTag> = Vec::new();
                let mut i: usize = 0;
                while i < children.len()
                    invariant
                        *self == TagData::Compound(*children),
                        i <= children@.len(),
                        copy@.len() == i,
                        forall|j: int| 0 <= j < i ==> (#[trigger] copy@[j])@ == children@[j]@,
                    decreases children@.len() - i,
                {
                    proof {
                        assert(decreases_to!(*self => self->Compound_0));
                        assert(decreases_to!(children => children[i as int]));
                    }
                    copy.push(NbtTag { id: children[i].id.clone(), data: children[i].data.clone() });
                    i = i + 1;
                }
                assert(tag_views(copy@) =~= tag_views(children@));
                TagData::Compound(copy)
            },
            TagData::IntArray(a) => {
                let copy = a.clone();
                assert(copy@ =~= a@);
                TagData::IntArray(copy)
            },
            TagData::LongArray(a) => {
                let copy = a.clone();
                assert(copy@ =~= a@);
                TagData::LongArray(copy)
            },
        }
    }
}

impl Clone for NbtTag {
    /// A copy of this tag.
    fn clone(&self) -> (copy: NbtTag)
        ensures
            copy@ == self@,
    {
        NbtTag { id: self.id.clone(), data: self.data.clone() }
    }
}

/// A whole tree: its top-level tags, in order.
#[derive(Debug, PartialEq)]
pub struct NbtTree {
    entries: Vec<NbtTag>,
}

impl View for NbtTree {
    type V = Seq<NamedValue>;

    closed spec fn view(&self) -> Seq<NamedValue> {
        tag_views(self.entries@)
    }
}

impl NbtTree {
    /// The tree with the given top-level tags.
    pub fn new(entries: Vec<NbtTag>) -> (tree: NbtTree)
        ensures
            tree@ == tag_views(entries@),
    {
        NbtTree { entries }
    }

    /// Appends a top-level tag.
    pub fn add_entry(&mut self, id: &str, data: TagData)
        ensures
            final(self)@ == old(self)@.push(NamedValue { id: id@, data: data@ }),
    {
        let ghost before = self.entries@;
        self.entries.push(NbtTag { id: id.to_owned(), data });
        assert(tag_views(self.entries@) =~= tag_views(before).push(
            NamedValue { id: id@, data: data@ },
        ));
    }

    /// The top-level tags, in order.
    pub fn entries(&self) -> (entries: &Vec<NbtTag>)
        ensures
            tag_views(entries@) == self@,
    {
        &self.entries
    }
}

impl Clone for NbtTree {
    /// A copy of this tree.
    fn clone(&self) -> (copy: NbtTree)
        ensures
            copy@ == self@,
    {
        let mut entries: Vec<NbtTag> = Vec::new();
        let mut i: usize = 0;
        while i < self.entries.len()
            invariant
                i <= self.entries@.len(),
                entries@.len() == i,
                forall|j: int| 0 <= j < i ==> (#[trigger] entries@[j])@ == self.entries@[j]@,
            decreases self.entries@.len() - i,
        {
            entries.push(self.entries[i].clone());
            i = i + 1;
        }
        assert(tag_views(entries@) =~= tag_views(self.entries@));
        NbtTree { entries }
    }
}

} // verus!
