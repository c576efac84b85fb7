//! The layout of a structure file: the tag tree that a structure is written
//! as, section by section.

use vstd::prelude::*;
use vstd::utf8::{is_ascii_chars, is_ascii_chars_encode_utf8};
use crate::nbt::error::NbtError;
use crate::nbt::kind::TagKind;
use crate::nbt::parse::parse_tree;
use crate::nbt::roundtrip::{
    lemma_decoding_undoes_encoding, string_fits, tag_writable, tree_writable, writable,
};
use crate::nbt::tag::{payload_views, tag_views, NbtTag, TagData};
use crate::nbt::text::{decimal, decimal_string};
use crate::nbt::value::{all_homogeneous, tree_bytes, NamedValue, TagValue};
use crate::nbt::wire::{i8_from_byte, i8_value};
use crate::structure::{metadata_ok, volume, MetadataView, StructureView, Triple};
use crate::types::{state_views, BlockState, BlockStateValue, BlockType, BlockTypeView, StateView};

verus! {

/// The version of the layout that is written.
pub open spec fn format_version() -> i32 {
    1
}

/// A list of ints with the given values.
pub open spec fn int_list(values: Seq<i32>) -> TagValue {
    TagValue::List(TagKind::Int, Seq::new(values.len(), |i: int| TagValue::Int(values[i])))
}

/// The second layer of block indices, which is not used: as many entries as
/// the grid has, each of them -1.
pub open spec fn unused_layer(len: nat) -> TagValue {
    int_list(Seq::new(len, |i: int| -1i32))
}

/// The payload that a state value is written as: a string as a string, an
/// int as an int, a bool as a byte.
pub open spec fn state_value(v: BlockStateValue) -> TagValue {
    match v {
        BlockStateValue::String(s) => TagValue::String(s),
        BlockStateValue::Int(i) => TagValue::Int(i),
        BlockStateValue::Bool(b) => TagValue::Byte(i8_value(b)),
    }
}

/// The states of a block type, each under its name.
pub open spec fn states_compound(states: Seq<StateView>) -> TagValue {
    TagValue::Compound(
        Seq::new(
            states.len(),
            |i: int| NamedValue { id: states[i].name, data: state_value(states[i].value) },
        ),
    )
}

/// The palette entry of a block type: its name and its states.
pub open spec fn palette_entry(block: BlockTypeView) -> TagValue {
    TagValue::Compound(
        seq![
            NamedValue { id: "name"@, data: TagValue::String(block.type_id) },
            NamedValue { id: "states"@, data: states_compound(block.states) },
        ],
    )
}

/// What is stored with one block, under the block's flat index in decimal.
pub open spec fn position_entry(m: MetadataView) -> NamedValue {
    NamedValue {
        id: decimal(m.index as nat),
        data: TagValue::Compound(seq![NamedValue { id: "block_entity_data"@, data: m.data }]),
    }
}

/// The section with the two layers of block indices.
pub open spec fn block_indices(blocks: Seq<i32>) -> TagValue {
    TagValue::List(TagKind::List, seq![int_list(blocks), unused_layer(blocks.len())])
}

/// The section with the palette and what is stored with single blocks.
pub open spec fn palette_section(s: StructureView) -> TagValue {
    TagValue::Compound(
        seq![
            NamedValue {
                id: "default"@,
                data: TagValue::Compound(
                    seq![
                        NamedValue {
                            id: "block_palette"@,
                            data: TagValue::List(
                                TagKind::Compound,
                                Seq::new(s.palette.len(), |i: int| palette_entry(s.palette[i])),
                            ),
                        },
                        NamedValue {
                            id: "block_position_data"@,
                            data: TagValue::Compound(
                                Seq::new(s.metadata.len(), |i: int| position_entry(s.metadata[i])),
                            ),
                        },
                    ],
                ),
            },
        ],
    )
}

/// The sections of a structure file, in the order in which they are
/// written.
pub open spec fn sections(s: StructureView) -> Seq<NamedValue> {
    seq![
        NamedValue { id: "format_version"@, data: TagValue::Int(format_version()) },
        NamedValue {
            id: "size"@,
            data: int_list(seq![s.size.x as i32, s.size.y as i32, s.size.z as i32]),
        },
        NamedValue { id: "block_indices"@, data: block_indices(s.blocks) },
        NamedValue { id: "entities"@, data: TagValue::List(TagKind::Compound, Seq::empty()) },
        NamedValue { id: "palette"@, data: palette_section(s) },
        NamedValue { id: "structure_world_origin"@, data: int_list(seq![0i32, 0i32, 0i32]) },
    ]
}

/// The tree of a structure file: one compound without a name, which holds
/// the sections.
pub open spec fn structure_tree(s: StructureView) -> Seq<NamedValue> {
    seq![NamedValue { id: ""@, data: TagValue::Compound(sections(s)) }]
}

/// Every list in the tree of a well-formed structure is homogeneous, so the
/// tree can be encoded.
pub proof fn lemma_structure_tree_homogeneous(s: StructureView)
    requires
        s.wf(),
    ensures
        all_homogeneous(structure_tree(s)),
{
    assert forall|values: Seq<i32>| (#[trigger] int_list(values)).homogeneous() by {
        let elements = int_list(values)->List_1;
        assert forall|i: int| 0 <= i < elements.len() implies (#[trigger] elements[i]).kind()
            == TagKind::Int && elements[i].homogeneous() by {}
    }
    assert(block_indices(s.blocks).homogeneous()) by {
        let layers = block_indices(s.blocks)->List_1;
        assert forall|i: int| 0 <= i < layers.len() implies (#[trigger] layers[i]).kind()
            == TagKind::List && layers[i].homogeneous() by {}
    }
    assert(TagValue::List(TagKind::Compound, Seq::empty()).homogeneous());
    assert forall|states: Seq<StateView>| (#[trigger] states_compound(states)).homogeneous() by {
        let children = states_compound(states)->Compound_0;
        assert forall|i: int| 0 <= i < children.len() implies (
        #[trigger] children[i]).data.homogeneous() by {}
    }
    assert forall|block: BlockTypeView| (#[trigger] palette_entry(block)).homogeneous() by {
        let children = palette_entry(block)->Compound_0;
        assert forall|i: int| 0 <= i < children.len() implies (
        #[trigger] children[i]).data.homogeneous() by {}
    }
    let default = palette_section(s)->Compound_0[0].data;
    let entries = default->Compound_0[0].data;
    let stored = default->Compound_0[1].data;
    assert(entries.homogeneous()) by {
        let elements = entries->List_1;
        assert forall|i: int| 0 <= i < elements.len() implies (#[trigger] elements[i]).kind()
            == TagKind::Compound && elements[i].homogeneous() by {}
    }
    assert(stored.homogeneous()) by {
        let children = stored->Compound_0;
        assert forall|i: int| 0 <= i < children.len() implies (
        #[trigger] children[i]).data.homogeneous() by {
            assert(metadata_ok(s.metadata[i].data));
            let inner = children[i].data->Compound_0;
            assert forall|j: int| 0 <= j < inner.len() implies (
            #[trigger] inner[j]).data.homogeneous() by {}
        }
    }
    assert(default.homogeneous()) by {
        let children = default->Compound_0;
        assert forall|i: int| 0 <= i < children.len() implies (
        #[trigger] children[i]).data.homogeneous() by {}
    }
    assert(palette_section(s).homogeneous()) by {
        let children = palette_section(s)->Compound_0;
        assert forall|i: int| 0 <= i < children.len() implies (
        #[trigger] children[i]).data.homogeneous() by {}
    }
    let top = sections(s);
    assert forall|i: int| 0 <= i < top.len() implies (#[trigger] top[i]).data.homogeneous() by {}
    assert(TagValue::Compound(top).homogeneous());
    let tree = structure_tree(s);
    assert forall|i: int| 0 <= i < tree.len() implies (#[trigger] tree[i]).data.homogeneous() by {}
}

/// True if the UTF-8 form of the name of the state, and of its value where
/// that is a string, is at most 65535 bytes long.
pub open spec fn state_fits(state: StateView) -> bool {
    &&& string_fits(state.name)
    &&& state.value matches BlockStateValue::String(text) ==> string_fits(text)
}

/// True if the UTF-8 form of every string in the block type is at most
/// 65535 bytes long.
pub open spec fn block_fits(block: BlockTypeView) -> bool {
    &&& string_fits(block.type_id)
    &&& forall|j: int| 0 <= j < block.states.len() ==> state_fits(#[trigger] block.states[j])
}

/// True if the file of the structure says all that the structure holds: no
/// string in the palette is too long for its count, and what is stored with
/// single blocks is writable.
pub open spec fn structure_fits(s: StructureView) -> bool {
    &&& forall|i: int| 0 <= i < s.palette.len() ==> block_fits(#[trigger] s.palette[i])
    &&& forall|i: int| 0 <= i < s.metadata.len() ==> writable(#[trigger] s.metadata[i].data)
}

/// A string of at most 65535 characters, all of them ASCII, fits its count.
pub proof fn lemma_ascii_fits(text: Seq<char>)
    requires
        is_ascii_chars(text),
        text.len() <= 0xffff,
    ensures
        string_fits(text),
{
    is_ascii_chars_encode_utf8(text);
}

/// Ten to the power of `k`.
pub open spec fn pow10(k: nat) -> nat
    decreases k,
{
    if k == 0 {
        1
    } else {
        10 * pow10((k - 1) as nat)
    }
}

/// A number below ten to the power of `k` has at most `k` decimal digits,
/// and they are ASCII.
pub proof fn lemma_decimal_digits(n: nat, k: nat)
    requires
        k >= 1,
        n < pow10(k),
    ensures
        decimal(n).len() <= k,
        is_ascii_chars(decimal(n)),
    decreases k,
{
    if n >= 10 {
        assert(pow10(1) == 10) by {
            reveal_with_fuel(pow10, 2);
        }
        lemma_decimal_digits(n / 10, (k - 1) as nat);
    }
}

/// The decimal form of a flat index fits its count.
pub proof fn lemma_decimal_fits(index: u32)
    ensures
        string_fits(decimal(index as nat)),
{
    assert(pow10(10) == 10_000_000_000) by {
        reveal_with_fuel(pow10, 11);
    }
    lemma_decimal_digits(index as nat, 10);
    lemma_ascii_fits(decimal(index as nat));
}

/// The names of the sections, and of what they hold, fit their counts.
pub proof fn lemma_section_names_fit()
    ensures
        string_fits(""@),
        string_fits("format_version"@),
        string_fits("size"@),
        string_fits("block_indices"@),
        string_fits("entities"@),
        string_fits("palette"@),
        string_fits("default"@),
        string_fits("block_palette"@),
        string_fits("block_position_data"@),
        string_fits("structure_world_origin"@),
        string_fits("name"@),
        string_fits("states"@),
        string_fits("block_entity_data"@),
{
    reveal_strlit("");
    reveal_strlit("format_version");
    reveal_strlit("size");
    reveal_strlit("block_indices");
    reveal_strlit("entities");
    reveal_strlit("palette");
    reveal_strlit("default");
    reveal_strlit("block_palette");
    reveal_strlit("block_position_data");
    reveal_strlit("structure_world_origin");
    reveal_strlit("name");
    reveal_strlit("states");
    reveal_strlit("block_entity_data");
    lemma_ascii_fits(""@);
    lemma_ascii_fits("format_version"@);
    lemma_ascii_fits("size"@);
    lemma_ascii_fits("block_indices"@);
    lemma_ascii_fits("entities"@);
    lemma_ascii_fits("palette"@);
    lemma_ascii_fits("default"@);
    lemma_ascii_fits("block_palette"@);
    lemma_ascii_fits("block_position_data"@);
    lemma_ascii_fits("structure_world_origin"@);
    lemma_ascii_fits("name"@);
    lemma_ascii_fits("states"@);
    lemma_ascii_fits("block_entity_data"@);
}

/// The tree of a well-formed structure whose strings fit is writable: its
/// bytes say all that it holds.
pub proof fn lemma_structure_tree_writable(s: StructureView)
    requires
        s.wf(),
        structure_fits(s),
    ensures
        tree_writable(structure_tree(s)),
{
    lemma_section_names_fit();
    assert forall|values: Seq<i32>| values.len() <= u32::MAX implies writable(
        #[trigger] int_list(values),
    ) by {
        let elements = int_list(values)->List_1;
        assert forall|i: int| 0 <= i < elements.len() implies writable(#[trigger] elements[i]) by {}
    }
    assert(writable(block_indices(s.blocks))) by {
        let layers = block_indices(s.blocks)->List_1;
        assert(writable(int_list(s.blocks)));
        assert(writable(int_list(Seq::new(s.blocks.len(), |i: int| -1i32))));
        assert forall|i: int| 0 <= i < layers.len() implies writable(#[trigger] layers[i]) by {}
    }
    assert(writable(TagValue::List(TagKind::Compound, Seq::empty())));
    assert forall|block: BlockTypeView| block_fits(block) implies writable(
        #[trigger] palette_entry(block),
    ) by {
        let states = states_compound(block.states);
        assert(writable(states)) by {
            let children = states->Compound_0;
            assert forall|i: int| 0 <= i < children.len() implies tag_writable(
                #[trigger] children[i],
            ) by {
                assert(state_fits(block.states[i]));
            }
        }
        let children = palette_entry(block)->Compound_0;
        assert forall|i: int| 0 <= i < children.len() implies tag_writable(
            #[trigger] children[i],
        ) by {}
    }
    let default = palette_section(s)->Compound_0[0].data;
    let entries = default->Compound_0[0].data;
    let stored = default->Compound_0[1].data;
    assert(writable(entries)) by {
        let elements = entries->List_1;
        assert forall|i: int| 0 <= i < elements.len() implies writable(#[trigger] elements[i]) by {
            assert(block_fits(s.palette[i]));
        }
    }
    assert(writable(stored)) by {
        let children = stored->Compound_0;
        assert forall|i: int| 0 <= i < children.len() implies tag_writable(
            #[trigger] children[i],
        ) by {
            lemma_decimal_fits(s.metadata[i].index);
            assert(writable(s.metadata[i].data));
            assert(metadata_ok(s.metadata[i].data));
            let inner = children[i].data->Compound_0;
            assert forall|j: int| 0 <= j < inner.len() implies tag_writable(#[trigger] inner[j]) by {}
        }
    }
    assert(writable(default)) by {
        let children = default->Compound_0;
        assert forall|i: int| 0 <= i < children.len() implies tag_writable(
            #[trigger] children[i],
        ) by {}
    }
    assert(writable(palette_section(s))) by {
        let children = palette_section(s)->Compound_0;
        assert forall|i: int| 0 <= i < children.len() implies tag_writable(
            #[trigger] children[i],
        ) by {}
    }
    let top = sections(s);
    assert forall|i: int| 0 <= i < top.len() implies tag_writable(#[trigger] top[i]) by {}
    assert(writable(TagValue::Compound(top)));
    let tree = structure_tree(s);
    assert forall|i: int| 0 <= i < tree.len() implies tag_writable(#[trigger] tree[i]) by {}
}

/// The file of a structure decodes to the tree of the structure: decoding
/// succeeds and gives back what was written. This holds of every
/// well-formed structure whose strings fit their counts.
pub proof fn lemma_structure_file_decodes(s: StructureView)
    requires
        s.wf(),
        structure_fits(s),
    ensures
        parse_tree(true, tree_bytes(true, structure_tree(s))) == Ok::<Seq<NamedValue>, NbtError>(
            structure_tree(s),
        ),
{
    lemma_structure_tree_homogeneous(s);
    lemma_structure_tree_writable(s);
    lemma_decoding_undoes_encoding(true, structure_tree(s));
}

/// The file of a structure in which no block was placed decodes to the
/// tree of that structure, whatever its size.
pub proof fn lemma_empty_structure_file_decodes(size: Triple)
    requires
        0 <= size.x,
        0 <= size.y,
        0 <= size.z,
        volume(size) <= i32::MAX,
    ensures
        parse_tree(true, tree_bytes(true, structure_tree(StructureView::empty(size)))) == Ok::<
            Seq<NamedValue>,
            NbtError,
        >(structure_tree(StructureView::empty(size))),
{
    lemma_structure_file_decodes(StructureView::empty(size));
}

/// The tag with the given identifier and payload.
pub fn named(id: &str, data: TagData) -> (tag: NbtTag)
    ensures
        tag@ == (NamedValue { id: id@, data: data@ }),
{
    NbtTag { id: id.to_owned(), data }
}

/// Builds a list of ints with the given values.
pub fn int_list_tag(values: &Vec<i32>) -> (list: TagData)
    ensures
        list@ == int_list(values@),
{
    let mut elements: Vec<TagData> = Vec::new();
    let mut i: usize = 0;
    while i < values.len()
        invariant
            i <= values@.len(),
            elements@.len() == i,
            forall|j: int| 0 <= j < i ==> (#[trigger] elements@[j])@ == TagValue::Int(values@[j]),
        decreases values@.len() - i,
    {
        elements.push(TagData::Int(values[i]));
        i = i + 1;
    }
    assert(payload_views(elements@) =~= int_list(values@)->List_1);
    TagData::List(TagKind::Int, elements)
}

/// Builds the second layer of block indices.
pub fn unused_layer_tag(len: usize) -> (list: TagData)
    ensures
        list@ == unused_layer(len as nat),
{
    let mut elements: Vec<TagData> = Vec::new();
    let mut i: usize = 0;
    while i < len
        invariant
            i <= len,
            elements@.len() == i,
            forall|j: int| 0 <= j < i ==> (#[trigger] elements@[j])@ == TagValue::Int(-1i32),
        decreases len - i,
    {
        elements.push(TagData::Int(-1));
        i = i + 1;
    }
    assert(payload_views(elements@) =~= unused_layer(len as nat)->List_1);
    TagData::List(TagKind::Int, elements)
}

/// Builds the payload that a state value is written as.
pub fn state_tag(state: &BlockState) -> (data: TagData)
    ensures
        data@ == state_value(state@),
{
    match state {
        BlockState::String(s) => TagData::String(s.clone()),
        BlockState::Int(i) => TagData::Int(*i),
        BlockState::Bool(b) => TagData::Byte(i8_from_byte(*b)),
    }
}

/// Builds the palette entry of a block type.
pub fn palette_entry_tag(block: &BlockType) -> (entry: TagData)
    ensures
        entry@ == palette_entry(block@),
{
    let states = block.states();
    let mut children: Vec<NbtTag> = Vec::new();
    let mut i: usize = 0;
    while i < states.len()
        invariant
            i <= states@.len(),
            children@.len() == i,
            forall|j: int|
                0 <= j < i ==> (#[trigger] children@[j])@ == (NamedValue {
                    id: state_views(states@)[j].name,
                    data: state_value(state_views(states@)[j].value),
                }),
        decreases states@.len() - i,
    {
        children.push(named(states[i].0.as_str(), state_tag(&states[i].1)));
        i = i + 1;
    }
    assert(tag_views(children@) =~= states_compound(block@.states)->Compound_0);
    let mut fields: Vec<NbtTag> = Vec::new();
    fields.push(named("name", TagData::String(block.type_id().to_owned())));
    fields.push(named("states", TagData::Compound(children)));
    assert(tag_views(fields@) =~= palette_entry(block@)->Compound_0);
    TagData::Compound(fields)
}

/// Builds the entry for what is stored with the block at `index`.
pub fn position_entry_tag(index: u32, data: &TagData) -> (entry: NbtTag)
    ensures
        entry@ == position_entry(MetadataView { index, data: data@ }),
{
    let mut fields: Vec<NbtTag> = Vec::new();
    fields.push(named("block_entity_data", data.clone()));
    let wrapped = TagData::Compound(fields);
    assert(wrapped@->Compound_0 =~= position_entry(MetadataView { index, data: data@ }).data->Compound_0);
    NbtTag { id: decimal_string(index as u64), data: wrapped }
}

} // verus!
