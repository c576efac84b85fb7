use mcstructs::nbt::{NbtTag, NbtTree, TagData, TagKind};
use mcstructs::structure::{grid_cells, set_item_slot_of_block, MCStructure, StructureError};
use mcstructs::types::{vec3_from_slice, BlockState, BlockType, Vec3};

fn comparator() -> BlockType {
    BlockType::new("minecraft:unpowered_comparator")
        .set_state("cardinal_direction", &BlockState::String("north".to_string()))
        .set_state("output_lit_bit", &BlockState::Bool(0))
        .set_state("output_subtract_bit", &BlockState::Bool(1))
}

fn child<'a>(data: &'a TagData, id: &str) -> &'a TagData {
    match data {
        TagData::Compound(children) => {
            &children.iter().find(|c| c.id == id).expect("no such child").data
        }
        _ => panic!("not a compound"),
    }
}

#[test]
fn new_structure_is_all_air() {
    let s = MCStructure::new(Vec3::new(2, 3, 4));
    assert_eq!(s.blocks().len(), 24);
    assert!(s.blocks().iter().all(|b| *b == -1));
    assert_eq!(s.palette().len(), 0);
    assert_eq!(s.position_metadata().len(), 0);
    assert_eq!(*s.size(), Vec3::new(2, 3, 4));
}

#[test]
fn placing_a_comparator() {
    let mut s = MCStructure::new(Vec3::new(1, 2, 1));
    let index = s.setblock(Vec3::new(0, 0, 0), comparator()).unwrap().index;
    assert_eq!(index, 0);
    assert_eq!(s.palette().len(), 1);
    assert_eq!(s.blocks()[0], 0);
    assert_eq!(s.blocks()[1], -1);
    assert_eq!(s.palette()[0], comparator());
}

#[test]
fn placing_a_barrel_with_an_item() {
    let mut s = MCStructure::new(Vec3::new(1, 2, 1));
    s.setblock(Vec3::new(0, 0, 0), comparator()).unwrap();
    let index = s
        .setblock(Vec3::new(0, 1, 0), BlockType::new("minecraft:barrel"))
        .unwrap()
        .set_item_slot(0, "minecraft:redstone", 32)
        .unwrap()
        .index;
    assert_eq!(index, 1);
    assert_eq!(s.blocks()[1], 1);
    assert_eq!(s.position_metadata().len(), 1);
    let (key, data) = &s.position_metadata()[0];
    assert_eq!(*key, 1);
    let items = child(data, "Items");
    let expected = TagData::List(
        TagKind::Compound,
        vec![TagData::Compound(vec![
            NbtTag { id: "Slot".to_string(), data: TagData::Byte(0) },
            NbtTag { id: "Name".to_string(), data: TagData::String("minecraft:redstone".to_string()) },
            NbtTag { id: "Count".to_string(), data: TagData::Byte(32) },
        ])],
    );
    assert_eq!(*items, expected);
}

#[test]
fn empty_structure_serializes_to_a_well_formed_tree() {
    let s = MCStructure::new(Vec3::new(0, 0, 0));
    let bytes = s.as_bytes();
    let tree = NbtTree::from_bytes(true, bytes).unwrap();
    assert_eq!(tree, s.to_tree());
    assert_eq!(tree.entries().len(), 1);
    assert_eq!(tree.entries()[0].id, "");
    let root = &tree.entries()[0].data;
    assert_eq!(
        *child(root, "size"),
        TagData::List(TagKind::Int, vec![TagData::Int(0), TagData::Int(0), TagData::Int(0)])
    );
    assert_eq!(
        *child(root, "block_indices"),
        TagData::List(
            TagKind::List,
            vec![TagData::List(TagKind::Int, vec![]), TagData::List(TagKind::Int, vec![])]
        )
    );
    let palette = child(child(child(root, "palette"), "default"), "block_palette");
    assert_eq!(*palette, TagData::List(TagKind::Compound, vec![]));
}

#[test]
fn empty_structure_bytes() {
    let bytes = MCStructure::new(Vec3::new(0, 0, 0)).as_bytes();
    let mut expected: Vec<u8> = vec![10, 0, 0];
    expected.extend([3, 14, 0]);
    expected.extend(b"format_version");
    expected.extend([1, 0, 0, 0]);
    expected.extend([9, 4, 0]);
    expected.extend(b"size");
    expected.extend([3, 3, 0, 0, 0, 0, 0, 0, 0, 0, 0, 0, 0, 0, 0, 0, 0]);
    expected.extend([9, 13, 0]);
    expected.extend(b"block_indices");
    expected.extend([9, 2, 0, 0, 0, 3, 0, 0, 0, 0, 3, 0, 0, 0, 0]);
    expected.extend([9, 8, 0]);
    expected.extend(b"entities");
    expected.extend([10, 0, 0, 0, 0]);
    expected.extend([10, 7, 0]);
    expected.extend(b"palette");
    expected.extend([10, 7, 0]);
    expected.extend(b"default");
    expected.extend([9, 13, 0]);
    expected.extend(b"block_palette");
    expected.extend([10, 0, 0, 0, 0]);
    expected.extend([10, 19, 0]);
    expected.extend(b"block_position_data");
    expected.extend([0]);
    expected.extend([0]);
    expected.extend([0]);
    expected.extend([9, 22, 0]);
    expected.extend(b"structure_world_origin");
    expected.extend([3, 3, 0, 0, 0, 0, 0, 0, 0, 0, 0, 0, 0, 0, 0, 0, 0]);
    expected.extend([0]);
    assert_eq!(bytes, expected);
}

#[test]
fn flat_index_counts_x_most() {
    let mut s = MCStructure::new(Vec3::new(2, 3, 4));
    assert_eq!(s.setblock(Vec3::new(1, 2, 3), BlockType::new("a")).unwrap().index, 23);
    assert_eq!(s.setblock(Vec3::new(1, 0, 0), BlockType::new("b")).unwrap().index, 12);
    assert_eq!(s.setblock(Vec3::new(0, 1, 0), BlockType::new("c")).unwrap().index, 4);
    assert_eq!(s.setblock(Vec3::new(0, 0, 1), BlockType::new("d")).unwrap().index, 1);
    assert_eq!(s.blocks()[23], 0);
    assert_eq!(s.blocks()[12], 1);
    assert_eq!(s.blocks()[4], 2);
    assert_eq!(s.blocks()[1], 3);
}

#[test]
fn palette_grows_by_one_for_each_placement() {
    let mut s = MCStructure::new(Vec3::new(2, 1, 2));
    for (n, (x, z)) in [(0, 0), (0, 1), (1, 0), (1, 1), (0, 0)].into_iter().enumerate() {
        s.setblock(Vec3::new(x, 0, z), BlockType::new("minecraft:stone")).unwrap();
        assert_eq!(s.palette().len(), n + 1);
    }
    assert_eq!(*s.blocks(), vec![4, 1, 2, 3]);
}

#[test]
fn placement_outside_the_grid_is_refused() {
    let mut s = MCStructure::new(Vec3::new(1, 2, 1));
    s.setblock(Vec3::new(0, 1, 0), BlockType::new("minecraft:stone")).unwrap();
    for loc in [[1, 0, 0], [0, 2, 0], [0, 0, 1], [-1, 0, 0], [0, -1, 0], [0, 0, -1], [5, 5, 5]] {
        let r = s.setblock(vec3_from_slice(&loc), BlockType::new("minecraft:dirt"));
        assert_eq!(r.err(), Some(StructureError::OutOfBounds));
        assert_eq!(s.palette().len(), 1);
        assert_eq!(*s.blocks(), vec![-1, 0]);
    }
}

#[test]
fn items_are_refused_by_a_block_that_holds_none() {
    let mut s = MCStructure::new(Vec3::new(1, 1, 1));
    let r = s
        .setblock(Vec3::new(0, 0, 0), BlockType::new("minecraft:stone"))
        .unwrap()
        .set_item_slot(0, "minecraft:redstone", 1);
    assert_eq!(r.err(), Some(StructureError::NotAContainer));
    assert_eq!(s.position_metadata().len(), 0);
    assert_eq!(s.palette().len(), 1);
}

#[test]
fn a_chest_holds_items_too() {
    let mut s = MCStructure::new(Vec3::new(1, 1, 1));
    s.setblock(Vec3::new(0, 0, 0), BlockType::new("minecraft:chest"))
        .unwrap()
        .set_item_slot(3, "minecraft:stick", 200)
        .unwrap();
    let items = child(&s.position_metadata()[0].1, "Items");
    match items {
        TagData::List(TagKind::Compound, entries) => {
            assert_eq!(*child(&entries[0], "Slot"), TagData::Byte(3));
            assert_eq!(*child(&entries[0], "Count"), TagData::Byte(-56));
        }
        _ => panic!("not a list of compounds"),
    }
}

#[test]
fn items_with_one_slot_lie_side_by_side() {
    let mut s = MCStructure::new(Vec3::new(1, 1, 2));
    s.setblock(Vec3::new(0, 0, 1), BlockType::new("minecraft:barrel"))
        .unwrap()
        .set_item_slot(0, "minecraft:redstone", 32)
        .unwrap()
        .set_item_slot(0, "minecraft:stick", 1)
        .unwrap();
    let barrel = BlockType::new("minecraft:barrel");
    set_item_slot_of_block(&mut s, &barrel, 1, 5, "minecraft:dirt", 64).unwrap();
    set_item_slot_of_block(&mut s, &barrel, 0, 5, "minecraft:dirt", 64).unwrap();
    assert_eq!(s.position_metadata().len(), 2);
    assert_eq!(s.position_metadata()[0].0, 1);
    assert_eq!(s.position_metadata()[1].0, 0);
    match child(&s.position_metadata()[0].1, "Items") {
        TagData::List(_, entries) => assert_eq!(entries.len(), 3),
        _ => panic!("not a list"),
    }
}

#[test]
fn serialized_structure_decodes_to_its_tree() {
    let mut s = MCStructure::new(Vec3::new(1, 2, 1));
    s.setblock(Vec3::new(0, 0, 0), comparator()).unwrap();
    s.setblock(Vec3::new(0, 1, 0), BlockType::new("minecraft:barrel"))
        .unwrap()
        .set_item_slot(0, "minecraft:redstone", 32)
        .unwrap();
    let tree = NbtTree::from_bytes(true, s.as_bytes()).unwrap();
    assert_eq!(tree, s.to_tree());
    let root = &tree.entries()[0].data;
    assert_eq!(*child(root, "format_version"), TagData::Int(1));
    assert_eq!(
        *child(root, "block_indices"),
        TagData::List(
            TagKind::List,
            vec![
                TagData::List(TagKind::Int, vec![TagData::Int(0), TagData::Int(1)]),
                TagData::List(TagKind::Int, vec![TagData::Int(-1), TagData::Int(-1)]),
            ]
        )
    );
    let default = child(child(root, "palette"), "default");
    match child(default, "block_palette") {
        TagData::List(TagKind::Compound, entries) => {
            assert_eq!(entries.len(), 2);
            assert_eq!(
                *child(&entries[0], "name"),
                TagData::String("minecraft:unpowered_comparator".to_string())
            );
            let states = child(&entries[0], "states");
            assert_eq!(*child(states, "cardinal_direction"), TagData::String("north".to_string()));
            assert_eq!(*child(states, "output_lit_bit"), TagData::Byte(0));
            assert_eq!(*child(states, "output_subtract_bit"), TagData::Byte(1));
        }
        _ => panic!("not a list of compounds"),
    }
    let stored = child(child(default, "block_position_data"), "1");
    assert_eq!(*child(stored, "block_entity_data"), s.position_metadata()[0].1);
}

#[test]
fn setting_a_state_twice_keeps_its_place() {
    let block = comparator().set_state("output_lit_bit", &BlockState::Int(7));
    assert_eq!(block.states().len(), 3);
    assert_eq!(block.states()[0].0, "cardinal_direction");
    assert_eq!(block.states()[1], ("output_lit_bit".to_string(), BlockState::Int(7)));
    assert_eq!(block.states()[2].0, "output_subtract_bit");
    assert_eq!(block.type_id(), "minecraft:unpowered_comparator");
}

#[test]
fn containers_are_barrels_and_chests() {
    assert!(BlockType::new("minecraft:barrel").is_container());
    assert!(BlockType::new("minecraft:chest").is_container());
    assert!(!BlockType::new("minecraft:stone").is_container());
    assert!(!BlockType::new("barrel").is_container());
}

#[test]
fn stored_compounds_are_keyed_by_the_flat_index_in_decimal() {
    let mut s = MCStructure::new(Vec3::new(4, 5, 6));
    s.setblock(Vec3::new(3, 4, 5), BlockType::new("minecraft:barrel"))
        .unwrap()
        .set_item_slot(1, "minecraft:dirt", 2)
        .unwrap();
    s.setblock(Vec3::new(0, 0, 0), BlockType::new("minecraft:chest"))
        .unwrap()
        .set_item_slot(1, "minecraft:dirt", 2)
        .unwrap();
    s.setblock(Vec3::new(0, 1, 4), BlockType::new("minecraft:chest"))
        .unwrap()
        .set_item_slot(1, "minecraft:dirt", 2)
        .unwrap();
    let tree = s.to_tree();
    let stored = child(child(child(&tree.entries()[0].data, "palette"), "default"), "block_position_data");
    match stored {
        TagData::Compound(entries) => {
            let keys: Vec<&str> = entries.iter().map(|e| e.id.as_str()).collect();
            assert_eq!(keys, vec!["119", "0", "10"]);
        }
        _ => panic!("not a compound"),
    }
}

#[test]
fn the_volume_of_a_grid() {
    assert_eq!(grid_cells(&Vec3::new(2, 3, 4)), Some(24));
    assert_eq!(grid_cells(&Vec3::new(0, 0, 0)), Some(0));
    assert_eq!(grid_cells(&Vec3::new(i32::MAX, i32::MAX, 0)), Some(0));
    assert_eq!(grid_cells(&Vec3::new(i32::MAX, 1, 1)), Some(i32::MAX as usize));
    assert_eq!(grid_cells(&Vec3::new(1 << 16, 1 << 15, 1)), None);
    assert_eq!(grid_cells(&Vec3::new(1 << 11, 1 << 10, 1 << 10)), None);
    assert_eq!(grid_cells(&Vec3::new(i32::MAX, i32::MAX, i32::MAX)), None);
    assert_eq!(grid_cells(&Vec3::new(-1, 1, 1)), None);
    assert_eq!(grid_cells(&Vec3::new(1, -1, 1)), None);
    assert_eq!(grid_cells(&Vec3::new(1, 1, -1)), None);
}

#[test]
fn a_structure_from_its_parts() {
    let mut s = MCStructure::new(Vec3::new(1, 2, 1));
    s.setblock(Vec3::new(0, 0, 0), comparator()).unwrap();
    s.setblock(Vec3::new(0, 1, 0), BlockType::new("minecraft:barrel"))
        .unwrap()
        .set_item_slot(0, "minecraft:redstone", 32)
        .unwrap();
    let again = MCStructure::from_parts(
        Vec3::new(1, 2, 1),
        s.blocks().clone(),
        s.palette().clone(),
        s.position_metadata().clone(),
    )
    .expect("the parts of a structure make a structure");
    assert_eq!(again.as_bytes(), s.as_bytes());
}

#[test]
fn parts_that_make_no_structure_are_refused() {
    let stone = || vec![BlockType::new("minecraft:stone")];
    let items = || TagData::Compound(vec![NbtTag {
        id: "Items".to_string(),
        data: TagData::List(TagKind::Compound, vec![]),
    }]);
    let ok = MCStructure::from_parts(Vec3::new(1, 2, 1), vec![0, -1], stone(), vec![(1, items())]);
    assert!(ok.is_some());
    let wrong_len = MCStructure::from_parts(Vec3::new(1, 2, 1), vec![0], stone(), vec![]);
    assert!(wrong_len.is_none());
    let negative = MCStructure::from_parts(Vec3::new(-1, 2, 1), vec![], stone(), vec![]);
    assert!(negative.is_none());
    let no_entry = MCStructure::from_parts(Vec3::new(1, 2, 1), vec![0, 1], stone(), vec![]);
    assert!(no_entry.is_none());
    let below = MCStructure::from_parts(Vec3::new(1, 2, 1), vec![0, -2], stone(), vec![]);
    assert!(below.is_none());
    let twice = MCStructure::from_parts(
        Vec3::new(1, 2, 1),
        vec![0, -1],
        stone(),
        vec![(1, items()), (0, items()), (1, items())],
    );
    assert!(twice.is_none());
    let not_a_compound =
        MCStructure::from_parts(Vec3::new(1, 2, 1), vec![0, -1], stone(), vec![(1, TagData::Int(1))]);
    assert!(not_a_compound.is_none());
    let items_not_a_list = MCStructure::from_parts(
        Vec3::new(1, 2, 1),
        vec![0, -1],
        stone(),
        vec![(1, TagData::Compound(vec![NbtTag { id: "Items".to_string(), data: TagData::Int(1) }]))],
    );
    assert!(items_not_a_list.is_none());
    let items_of_ints = MCStructure::from_parts(
        Vec3::new(1, 2, 1),
        vec![0, -1],
        stone(),
        vec![(
            1,
            TagData::Compound(vec![NbtTag {
                id: "Items".to_string(),
                data: TagData::List(TagKind::Int, vec![]),
            }]),
        )],
    );
    assert!(items_of_ints.is_none());
    let mixed_list = MCStructure::from_parts(
        Vec3::new(1, 2, 1),
        vec![0, -1],
        stone(),
        vec![(
            1,
            TagData::Compound(vec![NbtTag {
                id: "other".to_string(),
                data: TagData::List(TagKind::Int, vec![TagData::Byte(1)]),
            }]),
        )],
    );
    assert!(mixed_list.is_none());
}

#[test]
fn components_of_a_vector() {
    let v = Vec3::new(1u8, 2u8, 3u8);
    assert_eq!((*v.x(), *v.y(), *v.z()), (1, 2, 3));
    let w = vec3_from_slice(&[7, -8, 9]);
    assert_eq!((*w.x(), *w.y(), *w.z()), (7, -8, 9));
}

#[test]
fn a_copy_of_a_block_type_holds_the_same() {
    let block = comparator();
    assert_eq!(block.clone(), block);
    assert_eq!(BlockState::String("x".to_string()).clone(), BlockState::String("x".to_string()));
    assert_eq!(BlockState::Bool(1).clone(), BlockState::Bool(1));
}
