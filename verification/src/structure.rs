//! The structure builder: a grid of blocks, the palette that the grid refers
//! to, and what is stored with single blocks.

use vstd::prelude::*;
use crate::nbt::kind::TagKind;
use crate::layout::{
    block_indices, int_list_tag, lemma_structure_tree_homogeneous, named, palette_entry,
    palette_entry_tag, palette_section, position_entry, position_entry_tag, sections,
    structure_tree, unused_layer_tag,
};
use crate::nbt::tag::{payload_views, tag_views, NbtTag, NbtTree, TagData};
use crate::nbt::value::{child_index, tree_bytes, NamedValue, TagValue};
use crate::nbt::wire::{i8_from_byte, i8_value};
use crate::seqs::{first_where, lemma_first_where, lemma_first_where_is};
use crate::types::{is_container_id, BlockType, BlockTypeView, Vec3};

verus! {

/// A recoverable failure of the structure builder.
#[derive(Clone, Copy, Debug, PartialEq, Eq, Structural)]
pub enum StructureError {
    /// A coordinate is negative, or not below the size on its axis.
    OutOfBounds,
    /// Items were put into a block that does not hold items.
    NotAContainer,
}

/// Three whole numbers: a size or a place in the grid.
pub struct Triple {
    pub x: int,
    pub y: int,
    pub z: int,
}

/// The three components of a vector, as numbers.
pub open spec fn triple_of(v: Vec3<i32>) -> Triple {
    Triple { x: *v.x() as int, y: *v.y() as int, z: *v.z() as int }
}

/// The number of places in a grid of the given size.
pub open spec fn volume(size: Triple) -> int {
    size.x * size.y * size.z
}

/// True if `loc` is a place in a grid of the given size.
pub open spec fn in_bounds(size: Triple, loc: Triple) -> bool {
    &&& 0 <= loc.x < size.x
    &&& 0 <= loc.y < size.y
    &&& 0 <= loc.z < size.z
}

/// Where the block at `loc` lies in the flat list of blocks: `x` counts
/// most, then `y`, then `z`.
pub open spec fn flat_index(size: Triple, loc: Triple) -> int {
    size.z * size.y * loc.x + size.z * loc.y + loc.z
}

/// The flat index of a place in the grid is below the volume of the grid,
/// and so is each part of the sum that gives it.
pub proof fn lemma_flat_index_in_volume(size: Triple, loc: Triple)
    requires
        in_bounds(size, loc),
    ensures
        0 <= size.z * size.y <= volume(size),
        0 <= size.z * size.y * loc.x <= volume(size),
        0 <= size.z * loc.y <= volume(size),
        0 <= size.z * size.y * loc.x + size.z * loc.y <= volume(size),
        0 <= flat_index(size, loc) < volume(size),
{
    let plane = size.z * size.y;
    assert(0 <= plane && size.z * loc.y + size.z <= plane && 0 <= size.z * loc.y) by (nonlinear_arith)
        requires
            plane == size.z * size.y,
            0 <= loc.y < size.y,
            0 < size.z,
    ;
    assert(0 <= plane * loc.x && plane * loc.x + plane <= plane * size.x) by (nonlinear_arith)
        requires
            0 <= plane,
            0 <= loc.x < size.x,
    ;
    assert(plane * size.x == size.x * size.y * size.z) by (nonlinear_arith)
        requires
            plane == size.z * size.y,
    ;
}

/// What is stored with one block: the flat index of the block, and a
/// compound.
pub struct MetadataView {
    pub index: u32,
    pub data: TagValue,
}

/// The model of a structure, of which contracts speak.
pub struct StructureView {
    pub size: Triple,
    pub blocks: Seq<i32>,
    pub palette: Seq<BlockTypeView>,
    pub metadata: Seq<MetadataView>,
}

/// The name of the child of a block's compound that lists its items.
pub open spec fn items_key() -> Seq<char> {
    "Items"@
}

/// One item in a container: the slot it lies in, what it is, and how many
/// there are.
pub open spec fn item_entry(slot: u8, item_type_id: Seq<char>, count: u8) -> TagValue {
    TagValue::Compound(
        seq![
            NamedValue { id: "Slot"@, data: TagValue::Byte(i8_value(slot)) },
            NamedValue { id: "Name"@, data: TagValue::String(item_type_id) },
            NamedValue { id: "Count"@, data: TagValue::Byte(i8_value(count)) },
        ],
    )
}

/// True if `v` is a list that declares compounds as its elements.
pub open spec fn is_compound_list(v: TagValue) -> bool {
    v matches TagValue::List(kind, _) && kind == TagKind::Compound
}

/// True if `data` can be stored with a block: a compound in which every
/// list is homogeneous, and in which the child that lists the items, where
/// there is one, is a list of compounds.
pub open spec fn metadata_ok(data: TagValue) -> bool {
    &&& data.homogeneous()
    &&& data matches TagValue::Compound(children)
    &&& child_index(children, items_key()) < children.len() ==> is_compound_list(
        children[child_index(children, items_key())].data,
    )
}

/// The compound `data` with `item` behind the items that it lists. The list
/// is made where `data` has none yet.
pub open spec fn add_item(data: TagValue, item: TagValue) -> TagValue {
    match data {
        TagValue::Compound(children) => {
            let j = child_index(children, items_key());
            if j < children.len() {
                match children[j].data {
                    TagValue::List(kind, items) => TagValue::Compound(
                        children.update(
                            j,
                            NamedValue { id: items_key(), data: TagValue::List(kind, items.push(item)) },
                        ),
                    ),
                    _ => data,
                }
            } else {
                TagValue::Compound(
                    children.push(
                        NamedValue {
                            id: items_key(),
                            data: TagValue::List(TagKind::Compound, seq![item]),
                        },
                    ),
                )
            }
        },
        _ => data,
    }
}

/// The place in `metadata` of what is stored with the block at `index`, or
/// the length of `metadata` if nothing is.
pub open spec fn metadata_index(metadata: Seq<MetadataView>, index: u32) -> int {
    first_where(metadata, |m: MetadataView| m.index == index)
}

impl StructureView {
    /// The structure of the given size in which no block has been placed.
    pub open spec fn empty(size: Triple) -> StructureView {
        StructureView {
            size,
            blocks: Seq::new(volume(size) as nat, |i: int| -1i32),
            palette: Seq::empty(),
            metadata: Seq::empty(),
        }
    }

    /// What holds of every structure: the grid has the volume of its size;
    /// each of its entries is -1 or the index of a palette entry; at most
    /// one compound is stored with a block.
    pub open spec fn wf(self) -> bool {
        &&& 0 <= self.size.x
        &&& 0 <= self.size.y
        &&& 0 <= self.size.z
        &&& volume(self.size) <= i32::MAX
        &&& self.blocks.len() == volume(self.size)
        &&& self.palette.len() <= i32::MAX
        &&& forall|i: int|
            0 <= i < self.blocks.len() ==> #[trigger] self.blocks[i] == -1 || 0 <= self.blocks[i]
                < self.palette.len()
        &&& forall|i: int| 0 <= i < self.metadata.len() ==> metadata_ok(#[trigger] self.metadata[i].data)
        &&& forall|i: int, j: int|
            0 <= i < j < self.metadata.len() ==> (#[trigger] self.metadata[i]).index != (
            #[trigger] self.metadata[j]).index
    }

    /// This structure after `block` has been placed at `loc`: the palette
    /// has one entry more, and the grid refers to it at `loc`.
    pub open spec fn place(self, loc: Triple, block: BlockTypeView) -> StructureView {
        StructureView {
            blocks: self.blocks.update(flat_index(self.size, loc), self.palette.len() as i32),
            palette: self.palette.push(block),
            ..self
        }
    }

    /// This structure after `item` has been put into the block at `index`.
    pub open spec fn with_item(self, index: u32, item: TagValue) -> StructureView {
        let k = metadata_index(self.metadata, index);
        if k < self.metadata.len() {
            StructureView {
                metadata: self.metadata.update(
                    k,
                    MetadataView { index, data: add_item(self.metadata[k].data, item) },
                ),
                ..self
            }
        } else {
            StructureView {
                metadata: self.metadata.push(
                    MetadataView { index, data: add_item(TagValue::Compound(Seq::empty()), item) },
                ),
                ..self
            }
        }
    }
}

/// A structure: a grid of a fixed size, a palette that only grows, and the
/// compounds that are stored with single blocks.
#[derive(Debug)]
pub struct MCStructure {
    size: Vec3<i32>,
    blocks: Vec<i32>,
    palette: Vec<BlockType>,
    position_metadata: Vec<(u32, TagData)>,
}

/// The views of the palette entries in `v`, in order.
pub open spec fn palette_views(v: Seq<BlockType>) -> Seq<BlockTypeView> {
    Seq::new(v.len(), |i: int| v[i]@)
}

/// The views of the stored compounds in `v`, in order.
pub open spec fn metadata_views(v: Seq<(u32, TagData)>) -> Seq<MetadataView> {
    Seq::new(v.len(), |i: int| MetadataView { index: v[i].0, data: v[i].1@ })
}

impl View for MCStructure {
    type V = StructureView;

    closed spec fn view(&self) -> StructureView {
        StructureView {
            size: triple_of(self.size),
            blocks: self.blocks@,
            palette: palette_views(self.palette@),
            metadata: metadata_views(self.position_metadata@),
        }
    }
}

/// A block that was just placed: its type, its flat index, and the
/// structure it lies in, which nothing else can change while the handle
/// lives.
pub struct Block<'a> {
    pub permutation: BlockType,
    pub structure: &'a mut MCStructure,
    pub index: u32,
}

impl MCStructure {
    /// The structure of the given size in which no block has been placed.
    pub fn new(size: Vec3<i32>) -> (s: MCStructure)
        requires
            0 <= *size.x(),
            0 <= *size.y(),
            0 <= *size.z(),
            volume(triple_of(size)) <= i32::MAX,
        ensures
            s@ == StructureView::empty(triple_of(size)),
            s@.wf(),
    {
        let count = match grid_cells(&size) {
            Some(count) => count,
            None => 0,
        };
        let mut blocks: Vec<i32> = Vec::new();
        let mut i: usize = 0;
        while i < count
            invariant
                i <= count,
                blocks@.len() == i,
                forall|j: int| 0 <= j < i ==> blocks@[j] == -1,
            decreases count - i,
        {
            blocks.push(-1);
            i = i + 1;
        }
        let s = MCStructure { size, blocks, palette: Vec::new(), position_metadata: Vec::new() };
        assert(s@.blocks =~= StructureView::empty(triple_of(size)).blocks);
        assert(s@.palette =~= Seq::empty());
        assert(s@.metadata =~= Seq::empty());
        s
    }

    /// Places `block` at `loc`. The palette grows by this one entry, whether
    /// or not it holds an equal one already, and the grid refers to the new
    /// entry at `loc`. A place outside the grid is refused, and nothing
    /// changes.
    pub fn setblock(&mut self, loc: Vec3<i32>, block: BlockType) -> (r: Result<
        Block<'_>,
        StructureError,
    >)
        requires
            old(self)@.wf(),
            old(self)@.palette.len() < i32::MAX,
        ensures
            match r {
                Ok(handle) => {
                    &&& in_bounds(old(self)@.size, triple_of(loc))
                    &&& handle.structure@ == old(self)@.place(triple_of(loc), block@)
                    &&& handle.structure@.wf()
                    &&& handle.index == flat_index(old(self)@.size, triple_of(loc))
                    &&& handle.permutation@ == block@
                    &&& *final(self) == *final(handle.structure)
                },
                Err(e) => {
                    &&& e == StructureError::OutOfBounds
                    &&& !in_bounds(old(self)@.size, triple_of(loc))
                    &&& *final(self) == *old(self)
                },
            },
    {
        let sx = *self.size.x();
        let sy = *self.size.y();
        let sz = *self.size.z();
        let lx = *loc.x();
        let ly = *loc.y();
        let lz = *loc.z();
        if lx < 0 || ly < 0 || lz < 0 || lx >= sx || ly >= sy || lz >= sz {
            return Err(StructureError::OutOfBounds);
        }
        proof {
            lemma_flat_index_in_volume(self@.size, triple_of(loc));
        }
        let index = sz * sy * lx + sz * ly + lz;
        let permutation = block.clone();
        let ghost before = self@;
        let ghost old_palette = self.palette@;
        self.blocks.set(index as usize, self.palette.len() as i32);
        self.palette.push(block);
        proof {
            assert(palette_views(self.palette@) =~= palette_views(old_palette).push(block@));
            assert(self@ == before.place(triple_of(loc), block@));
        }
        Ok(Block { permutation, structure: self, index: index as u32 })
    }
}

/// A placement: where a block is put, and of which type it is.
pub struct Placement {
    pub loc: Triple,
    pub block: BlockTypeView,
}

/// The structure `s` after the given placements, made in order; `None` if
/// one of them is refused.
pub open spec fn place_all(s: StructureView, placements: Seq<Placement>) -> Option<StructureView>
    decreases placements.len(),
{
    if placements.len() == 0 {
        Some(s)
    } else {
        match place_all(s, placements.drop_last()) {
            Some(before) => if in_bounds(before.size, placements.last().loc) {
                Some(before.place(placements.last().loc, placements.last().block))
            } else {
                None
            },
            None => None,
        }
    }
}

/// Placements that all succeed make the palette grow by their number, and
/// leave the size as it was.
pub proof fn lemma_palette_grows_with_placements(s: StructureView, placements: Seq<Placement>)
    requires
        place_all(s, placements) is Some,
    ensures
        place_all(s, placements)->0.palette.len() == s.palette.len() + placements.len(),
        place_all(s, placements)->0.size == s.size,
    decreases placements.len(),
{
    if placements.len() > 0 {
        lemma_palette_grows_with_placements(s, placements.drop_last());
    }
}

/// After placements that all succeed, a structure that started empty has as
/// many palette entries as blocks were placed in it: whether a block of an
/// equal type was placed before plays no part.
pub proof fn lemma_palette_counts_placements(size: Triple, placements: Seq<Placement>)
    requires
        place_all(StructureView::empty(size), placements) is Some,
    ensures
        place_all(StructureView::empty(size), placements)->0.palette.len() == placements.len(),
{
    lemma_palette_grows_with_placements(StructureView::empty(size), placements);
}

/// Placing a block in a well-formed structure whose palette has room gives
/// a well-formed structure.
pub proof fn lemma_place_keeps_wf(s: StructureView, loc: Triple, block: BlockTypeView)
    requires
        s.wf(),
        s.palette.len() < i32::MAX,
        in_bounds(s.size, loc),
    ensures
        s.place(loc, block).wf(),
{
    lemma_flat_index_in_volume(s.size, loc);
    let after = s.place(loc, block);
    assert forall|i: int| 0 <= i < after.blocks.len() implies #[trigger] after.blocks[i] == -1 || 0
        <= after.blocks[i] < after.palette.len() by {
        if i != flat_index(s.size, loc) {
            assert(after.blocks[i] == s.blocks[i]);
        }
    }
}

/// Putting an item into a block keeps a structure well formed.
pub proof fn lemma_with_item_keeps_wf(s: StructureView, index: u32, item: TagValue)
    requires
        s.wf(),
        item.homogeneous(),
        item.kind() == TagKind::Compound,
    ensures
        s.with_item(index, item).wf(),
{
    let after = s.with_item(index, item);
    let k = metadata_index(s.metadata, index);
    lemma_first_where(s.metadata, |m: MetadataView| m.index == index);
    let fresh = TagValue::Compound(Seq::empty());
    assert(metadata_ok(fresh)) by {
        lemma_first_where(Seq::<NamedValue>::empty(), |c: NamedValue| c.id == items_key());
    }
    let data = if k < s.metadata.len() {
        s.metadata[k].data
    } else {
        fresh
    };
    assert(metadata_ok(data));
    lemma_add_item_ok(data, item);
    assert forall|i: int| 0 <= i < after.metadata.len() implies metadata_ok(
        #[trigger] after.metadata[i].data,
    ) by {
        if i != k {
            assert(after.metadata[i] == s.metadata[i]);
        }
    }
    assert forall|i: int, j: int| 0 <= i < j < after.metadata.len() implies (
    #[trigger] after.metadata[i]).index != (#[trigger] after.metadata[j]).index by {
        if k < s.metadata.len() {
            assert(after.metadata[i].index == s.metadata[i].index);
            assert(after.metadata[j].index == s.metadata[j].index);
        } else {
            if j == s.metadata.len() {
                assert(!(s.metadata[i].index == index));
            }
        }
    }
}

/// Adding an item to a compound that can be stored with a block gives such
/// a compound again.
pub proof fn lemma_add_item_ok(data: TagValue, item: TagValue)
    requires
        metadata_ok(data),
        item.homogeneous(),
        item.kind() == TagKind::Compound,
    ensures
        metadata_ok(add_item(data, item)),
{
    let children = data->Compound_0;
    let p = |c: NamedValue| c.id == items_key();
    let j = child_index(children, items_key());
    lemma_first_where(children, p);
    let after = add_item(data, item);
    let grown = after->Compound_0;
    if j < children.len() {
        let kind = children[j].data->List_0;
        let items = children[j].data->List_1;
        assert(children[j].data.homogeneous());
        let list = TagValue::List(kind, items.push(item));
        assert(list.homogeneous()) by {
            assert forall|i: int| 0 <= i < items.push(item).len() implies (
            #[trigger] items.push(item)[i]).kind() == kind && items.push(item)[i].homogeneous() by {
                if i < items.len() {
                    assert(items[i].kind() == kind && items[i].homogeneous());
                }
            }
        }
        assert forall|i: int| 0 <= i < grown.len() implies (#[trigger] grown[i]).data.homogeneous() by {
            if i != j {
                assert(grown[i] == children[i]);
            }
        }
        assert forall|i: int| 0 <= i < j implies !p(#[trigger] grown[i]) by {
            assert(grown[i] == children[i]);
        }
        lemma_first_where_is(grown, p, j);
    } else {
        let list = TagValue::List(TagKind::Compound, seq![item]);
        assert(list.homogeneous());
        assert forall|i: int| 0 <= i < grown.len() implies (#[trigger] grown[i]).data.homogeneous() by {
            if i < children.len() {
                assert(grown[i] == children[i]);
            }
        }
        assert forall|i: int| 0 <= i < j implies !p(#[trigger] grown[i]) by {
            assert(grown[i] == children[i]);
        }
        lemma_first_where_is(grown, p, j);
    }
}

/// Builds the compound of one item in a container.
fn make_item(slot: u8, item_type_id: &str, count: u8) -> (item: TagData)
    ensures
        item@ == item_entry(slot, item_type_id@, count),
        item@.homogeneous(),
        item@.kind() == TagKind::Compound,
{
    let mut fields: Vec<NbtTag> = Vec::new();
    fields.push(NbtTag { id: "Slot".to_owned(), data: TagData::Byte(i8_from_byte(slot)) });
    fields.push(NbtTag { id: "Name".to_owned(), data: TagData::String(item_type_id.to_owned()) });
    fields.push(NbtTag { id: "Count".to_owned(), data: TagData::Byte(i8_from_byte(count)) });
    let item = TagData::Compound(fields);
    proof {
        let views = tag_views(fields@);
        let wanted = item_entry(slot, item_type_id@, count)->Compound_0;
        assert(views.len() == 3);
        assert(views[0] == wanted[0]);
        assert(views[1] == wanted[1]);
        assert(views[2] == wanted[2]);
        assert(views =~= wanted);
        assert forall|i: int| 0 <= i < wanted.len() implies (#[trigger] wanted[i]).data.homogeneous() by {
        }
    }
    item
}

/// Puts an item behind those that `data` lists already. The list is made
/// where `data` has none yet.
fn push_item(data: &mut TagData, item: TagData)
    requires
        metadata_ok(old(data)@),
    ensures
        final(data)@ == add_item(old(data)@, item@),
{
    let ghost children = data@->Compound_0;
    proof {
        lemma_first_where(children, |c: NamedValue| c.id == items_key());
    }
    match data.find_child_mut("Items") {
        Ok(Some(list)) => {
            match list {
                TagData::List(_, items) => {
                    let ghost before = items@;
                    items.push(item);
                    proof {
                        assert(payload_views(items@) =~= payload_views(before).push(item@));
                    }
                },
                _ => {},
            }
        },
        Ok(None) => {
            let mut items: Vec<TagData> = Vec::new();
            items.push(item);
            assert(payload_views(items@) =~= seq![item@]);
            let _ = data.add_tag("Items", TagData::List(TagKind::Compound, items));
        },
        Err(_) => {},
    }
}

/// Puts an item into the block at `index`, which is of type `block`. What
/// is stored with the block is made on its first item; a later item with
/// the slot of an earlier one is stored beside it. A block that does not
/// hold items is refused, and nothing changes.
pub fn set_item_slot_of_block(
    structure: &mut MCStructure,
    block: &BlockType,
    index: u32,
    slot: u8,
    item_type_id: &str,
    count: u8,
) -> (r: Result<(), StructureError>)
    requires
        old(structure)@.wf(),
    ensures
        match r {
            Ok(_) => {
                &&& is_container_id(block@.type_id)
                &&& final(structure)@ == old(structure)@.with_item(
                    index,
                    item_entry(slot, item_type_id@, count),
                )
                &&& final(structure)@.wf()
            },
            Err(e) => {
                &&& e == StructureError::NotAContainer
                &&& !is_container_id(block@.type_id)
                &&& *final(structure) == *old(structure)
            },
        },
{
    if !block.is_container() {
        return Err(StructureError::NotAContainer);
    }
    let item = make_item(slot, item_type_id, count);
    let ghost before = structure@;
    let ghost stored = structure.position_metadata@;
    let mut k: usize = 0;
    while k < structure.position_metadata.len()
        invariant
            structure.position_metadata@ == stored,
            k <= stored.len(),
            forall|j: int| 0 <= j < k ==> (#[trigger] metadata_views(stored)[j]).index != index,
        ensures
            k <= stored.len(),
            forall|j: int| 0 <= j < k ==> (#[trigger] metadata_views(stored)[j]).index != index,
            k < stored.len() ==> metadata_views(stored)[k as int].index == index,
        decreases stored.len() - k,
    {
        if structure.position_metadata[k].0 == index {
            break;
        }
        k = k + 1;
    }
    proof {
        lemma_first_where_is(metadata_views(stored), |m: MetadataView| m.index == index, k as int);
        lemma_with_item_keeps_wf(before, index, item@);
        lemma_first_where(Seq::<NamedValue>::empty(), |c: NamedValue| c.id == items_key());
    }
    if k == structure.position_metadata.len() {
        let children: Vec<NbtTag> = Vec::new();
        assert(tag_views(children@) =~= Seq::empty());
        structure.position_metadata.push((index, TagData::Compound(children)));
    }
    let ghost ready = structure.position_metadata@;
    assert(metadata_ok(ready[k as int].1@)) by {
        if k < stored.len() {
            assert(ready[k as int].1@ == before.metadata[k as int].data);
        }
    }
    push_item(&mut structure.position_metadata[k].1, item);
    proof {
        assert(metadata_views(structure.position_metadata@) =~= before.with_item(
            index,
            item@,
        ).metadata);
    }
    Ok(())
}

impl<'a> Block<'a> {
    /// Puts an item into this block. What is stored with the block is made
    /// on its first item; a later item with the slot of an earlier one is
    /// stored beside it. A block that does not hold items is refused, and
    /// nothing changes.
    pub fn set_item_slot(self, slot: u8, item_type_id: &str, count: u8) -> (r: Result<
        Block<'a>,
        StructureError,
    >)
        requires
            old(self.structure)@.wf(),
        ensures
            match r {
                Ok(handle) => {
                    &&& is_container_id(self.permutation@.type_id)
                    &&& handle.structure@ == old(self.structure)@.with_item(
                        self.index,
                        item_entry(slot, item_type_id@, count),
                    )
                    &&& handle.structure@.wf()
                    &&& handle.index == self.index
                    &&& handle.permutation == self.permutation
                    &&& *final(handle.structure) == *final(self.structure)
                },
                Err(e) => {
                    &&& e == StructureError::NotAContainer
                    &&& !is_container_id(self.permutation@.type_id)
                    &&& *final(self.structure) == *old(self.structure)
                },
            },
    {
        let Block { permutation, structure, index } = self;
        match set_item_slot_of_block(structure, &permutation, index, slot, item_type_id, count) {
            Ok(_) => Ok(Block { permutation, structure, index }),
            Err(e) => Err(e),
        }
    }
}

impl MCStructure {
    /// The tag tree that this structure is written as.
    pub fn to_tree(&self) -> (tree: NbtTree)
        ensures
            tree@ == structure_tree(self@),
    {
        let mut size: Vec<i32> = Vec::new();
        size.push(*self.size.x());
        size.push(*self.size.y());
        size.push(*self.size.z());
        assert(size@ =~= seq![self@.size.x as i32, self@.size.y as i32, self@.size.z as i32]);
        let mut origin: Vec<i32> = Vec::new();
        origin.push(0);
        origin.push(0);
        origin.push(0);
        assert(origin@ =~= seq![0i32, 0i32, 0i32]);

        let mut layers: Vec<TagData> = Vec::new();
        layers.push(int_list_tag(&self.blocks));
        layers.push(unused_layer_tag(self.blocks.len()));
        assert(payload_views(layers@) =~= block_indices(self@.blocks)->List_1);

        let mut palette: Vec<TagData> = Vec::new();
        let mut i: usize = 0;
        while i < self.palette.len()
            invariant
                i <= self.palette@.len(),
                palette@.len() == i,
                forall|j: int|
                    0 <= j < i ==> (#[trigger] palette@[j])@ == palette_entry(self.palette@[j]@),
            decreases self.palette@.len() - i,
        {
            palette.push(palette_entry_tag(&self.palette[i]));
            i = i + 1;
        }
        let mut stored: Vec<NbtTag> = Vec::new();
        let mut k: usize = 0;
        while k < self.position_metadata.len()
            invariant
                k <= self.position_metadata@.len(),
                stored@.len() == k,
                forall|j: int|
                    0 <= j < k ==> (#[trigger] stored@[j])@ == position_entry(
                        metadata_views(self.position_metadata@)[j],
                    ),
            decreases self.position_metadata@.len() - k,
        {
            stored.push(
                position_entry_tag(self.position_metadata[k].0, &self.position_metadata[k].1),
            );
            k = k + 1;
        }
        let ghost section = palette_section(self@);
        let ghost inner = section->Compound_0[0].data;
        let mut variant: Vec<NbtTag> = Vec::new();
        let block_palette = TagData::List(TagKind::Compound, palette);
        assert(block_palette@->List_1 =~= inner->Compound_0[0].data->List_1);
        variant.push(named("block_palette", block_palette));
        let block_position_data = TagData::Compound(stored);
        assert(block_position_data@->Compound_0 =~= inner->Compound_0[1].data->Compound_0);
        variant.push(named("block_position_data", block_position_data));
        assert(tag_views(variant@) =~= inner->Compound_0);
        let mut variants: Vec<NbtTag> = Vec::new();
        variants.push(named("default", TagData::Compound(variant)));
        assert(tag_views(variants@) =~= section->Compound_0);

        let entities: Vec<TagData> = Vec::new();
        assert(payload_views(entities@) =~= Seq::empty());

        let mut top: Vec<NbtTag> = Vec::new();
        top.push(named("format_version", TagData::Int(1)));
        top.push(named("size", int_list_tag(&size)));
        top.push(named("block_indices", TagData::List(TagKind::List, layers)));
        top.push(named("entities", TagData::List(TagKind::Compound, entities)));
        top.push(named("palette", TagData::Compound(variants)));
        top.push(named("structure_world_origin", int_list_tag(&origin)));
        assert(tag_views(top@) =~= sections(self@));

        let mut entries: Vec<NbtTag> = Vec::new();
        entries.push(named("", TagData::Compound(top)));
        assert(tag_views(entries@) =~= structure_tree(self@));
        NbtTree::new(entries)
    }

    /// The bytes of the structure file: the tree of this structure, in
    /// little-endian byte order.
    pub fn as_bytes(&self) -> (bytes: Vec<u8>)
        requires
            self@.wf(),
        ensures
            bytes@ == tree_bytes(true, structure_tree(self@)),
    {
        proof {
            lemma_structure_tree_homogeneous(self@);
        }
        match self.to_tree().as_bytes(true) {
            Ok(bytes) => bytes,
            Err(_) => Vec::new(),
        }
    }

    /// The size of the grid.
    pub fn size(&self) -> (size: &Vec3<i32>)
        ensures
            triple_of(*size) == self@.size,
    {
        &self.size
    }

    /// The grid, flat: for each place -1, or the index of a palette entry.
    pub fn blocks(&self) -> (blocks: &Vec<i32>)
        ensures
            blocks@ == self@.blocks,
    {
        &self.blocks
    }

    /// The palette, in the order of placement.
    pub fn palette(&self) -> (palette: &Vec<BlockType>)
        ensures
            palette_views(palette@) == self@.palette,
    {
        &self.palette
    }

    /// What is stored with single blocks, each compound with the flat index
    /// of its block.
    pub fn position_metadata(&self) -> (stored: &Vec<(u32, TagData)>)
        ensures
            metadata_views(stored@) == self@.metadata,
    {
        &self.position_metadata
    }
}

/// The number of places in a grid of the given size; `None` if a component
/// of the size is negative, or if a grid cannot have so many places.
pub fn grid_cells(size: &Vec3<i32>) -> (cells: Option<usize>)
    ensures
        match cells {
            Some(n) => {
                &&& 0 <= *size.x()
                &&& 0 <= *size.y()
                &&& 0 <= *size.z()
                &&& n == volume(triple_of(*size))
                &&& n <= i32::MAX
            },
            None => *size.x() < 0 || *size.y() < 0 || *size.z() < 0 || volume(triple_of(*size))
                > i32::MAX,
        },
{
    let x = *size.x();
    let y = *size.y();
    let z = *size.z();
    if x < 0 || y < 0 || z < 0 {
        return None;
    }
    assert(0 <= x * y <= 0x7fff_ffff * 0x7fff_ffff) by (nonlinear_arith)
        requires
            0 <= x <= 0x7fff_ffff,
            0 <= y <= 0x7fff_ffff,
    ;
    let plane: i64 = (x as i64) * (y as i64);
    assert(x * y * z >= x * y || z == 0) by (nonlinear_arith)
        requires
            0 <= x * y,
            0 <= z,
    ;
    assert(z == 0 ==> x * y * z == 0) by (nonlinear_arith);
    if z == 0 {
        return Some(0);
    }
    if plane > i32::MAX as i64 {
        return None;
    }
    assert(0 <= plane * z <= 0x7fff_ffff * 0x7fff_ffff) by (nonlinear_arith)
        requires
            0 <= plane <= 0x7fff_ffff,
            0 <= z <= 0x7fff_ffff,
    ;
    let cells: i64 = plane * (z as i64);
    if cells > i32::MAX as i64 {
        return None;
    }
    Some(cells as usize)
}

/// True if and only if `data` can be stored with a block.
fn is_metadata_ok(data: &TagData) -> (ok: bool)
    ensures
        ok == metadata_ok(data@),
{
    if !data.is_homogeneous() {
        return false;
    }
    match data.find_child("Items") {
        Ok(Some(items)) => match items {
            TagData::List(kind, _) => *kind == TagKind::Compound,
            _ => false,
        },
        Ok(None) => true,
        Err(_) => false,
    }
}

impl MCStructure {
    /// The structure with the given parts, if they make a well-formed
    /// structure: a size without a negative component and with a volume
    /// that a grid can have, a grid of that volume whose entries are -1 or
    /// indices of palette entries, and at most one compound for each block.
    pub fn from_parts(
        size: Vec3<i32>,
        blocks: Vec<i32>,
        palette: Vec<BlockType>,
        position_metadata: Vec<(u32, TagData)>,
    ) -> (r: Option<MCStructure>)
        ensures
            match r {
                Some(s) => s@ == (StructureView {
                    size: triple_of(size),
                    blocks: blocks@,
                    palette: palette_views(palette@),
                    metadata: metadata_views(position_metadata@),
                }) && s@.wf(),
                None => !(StructureView {
                    size: triple_of(size),
                    blocks: blocks@,
                    palette: palette_views(palette@),
                    metadata: metadata_views(position_metadata@),
                }).wf(),
            },
    {
        let ghost view = StructureView {
            size: triple_of(size),
            blocks: blocks@,
            palette: palette_views(palette@),
            metadata: metadata_views(position_metadata@),
        };
        let cells = match grid_cells(&size) {
            Some(cells) => cells,
            None => {
                return None;
            },
        };
        if blocks.len() != cells {
            return None;
        }
        if palette.len() > i32::MAX as usize {
            return None;
        }
        let mut i: usize = 0;
        while i < blocks.len()
            invariant
                i <= blocks@.len(),
                palette@.len() <= i32::MAX,
                view.blocks == blocks@,
                view.palette.len() == palette@.len(),
                forall|j: int|
                    0 <= j < i ==> #[trigger] blocks@[j] == -1 || 0 <= blocks@[j] < palette@.len(),
            decreases blocks@.len() - i,
        {
            let b = blocks[i];
            if b != -1 && (b < 0 || b as usize >= palette.len()) {
                assert(!(view.blocks[i as int] == -1 || 0 <= view.blocks[i as int]
                    < view.palette.len()));
                return None;
            }
            i = i + 1;
        }
        let mut k: usize = 0;
        while k < position_metadata.len()
            invariant
                k <= position_metadata@.len(),
                view.metadata == metadata_views(position_metadata@),
                forall|j: int| 0 <= j < k ==> metadata_ok(#[trigger] view.metadata[j].data),
                forall|a: int, b: int|
                    0 <= a < b < k ==> (#[trigger] view.metadata[a]).index != (
                    #[trigger] view.metadata[b]).index,
            decreases position_metadata@.len() - k,
        {
            if !is_metadata_ok(&position_metadata[k].1) {
                assert(!metadata_ok(view.metadata[k as int].data));
                return None;
            }
            let mut earlier: usize = 0;
            while earlier < k
                invariant
                    earlier <= k < position_metadata@.len(),
                    view.metadata == metadata_views(position_metadata@),
                    forall|a: int|
                        0 <= a < earlier ==> (#[trigger] view.metadata[a]).index
                            != view.metadata[k as int].index,
                decreases k - earlier,
            {
                if position_metadata[earlier].0 == position_metadata[k].0 {
                    assert(view.metadata[earlier as int].index == view.metadata[k as int].index);
                    return None;
                }
                earlier = earlier + 1;
            }
            k = k + 1;
        }
        Some(MCStructure { size, blocks, palette, position_metadata })
    }
}

} // verus!
