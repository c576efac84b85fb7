use mcstructs::nbt::render::{to_tag_string, Line, LineBody};
use mcstructs::nbt::text::{decimal_string, hexadecimal_string, signed_decimal_string, str_eq};
use mcstructs::nbt::{NbtError, NbtReader, NbtTag, NbtTree, NbtWriter, TagData, TagKind};

fn tag(id: &str, data: TagData) -> NbtTag {
    NbtTag { id: id.to_string(), data }
}

fn sample_tree() -> NbtTree {
    let mut tree = NbtTree::new(vec![]);
    tree.add_entry("byte", TagData::Byte(-1));
    tree.add_entry("short", TagData::Short(-2));
    tree.add_entry("int", TagData::Int(0x01020304));
    tree.add_entry("long", TagData::Long(-0x0102030405060708));
    tree.add_entry("float", TagData::Float(1.5f32.to_bits()));
    tree.add_entry("double", TagData::Double((-0.25f64).to_bits()));
    tree.add_entry("bytes", TagData::ByteArray(vec![1, -1, 127, -128]));
    tree.add_entry("text", TagData::String("grüße, 世界".to_string()));
    tree.add_entry("ints", TagData::IntArray(vec![1, -1, i32::MAX, i32::MIN]));
    tree.add_entry("longs", TagData::LongArray(vec![1, -1, i64::MAX, i64::MIN]));
    tree.add_entry("empty list", TagData::List(TagKind::End, vec![]));
    tree.add_entry("ends", TagData::List(TagKind::End, vec![TagData::End, TagData::End]));
    tree.add_entry(
        "lists",
        TagData::List(
            TagKind::List,
            vec![
                TagData::List(TagKind::Int, vec![TagData::Int(1), TagData::Int(2)]),
                TagData::List(TagKind::String, vec![TagData::String("a".to_string())]),
            ],
        ),
    );
    let mut compound = TagData::Compound(vec![]);
    compound.add_tag("x", TagData::Int(7)).unwrap();
    compound.add_tag("x", TagData::Int(8)).unwrap();
    compound.add_tag("", TagData::Compound(vec![])).unwrap();
    tree.add_entry("compound", compound);
    tree
}

#[test]
fn single_int_little_endian_bytes() {
    let mut tree = NbtTree::new(vec![]);
    tree.add_entry("a", TagData::Int(1));
    let bytes = tree.as_bytes(true).unwrap();
    assert_eq!(bytes, vec![3, 1, 0, b'a', 1, 0, 0, 0]);
}

#[test]
fn single_int_big_endian_bytes() {
    let mut tree = NbtTree::new(vec![]);
    tree.add_entry("a", TagData::Int(1));
    let bytes = tree.as_bytes(false).unwrap();
    assert_eq!(bytes, vec![3, 0, 1, b'a', 0, 0, 0, 1]);
}

#[test]
fn payload_bytes_of_each_kind() {
    let encode = |data: TagData, le: bool| {
        let mut w = NbtWriter::new(le);
        data.as_bytes(&mut w).unwrap();
        w.into_bytes()
    };
    assert_eq!(encode(TagData::End, true), Vec::<u8>::new());
    assert_eq!(encode(TagData::Byte(-2), true), vec![0xfe]);
    assert_eq!(encode(TagData::Byte(-2), false), vec![0xfe]);
    assert_eq!(encode(TagData::Short(0x0102), true), vec![2, 1]);
    assert_eq!(encode(TagData::Short(-2), false), vec![0xff, 0xfe]);
    assert_eq!(encode(TagData::Int(-2), true), vec![0xfe, 0xff, 0xff, 0xff]);
    assert_eq!(encode(TagData::Long(0x0102030405060708), false), vec![1, 2, 3, 4, 5, 6, 7, 8]);
    assert_eq!(encode(TagData::Long(0x0102030405060708), true), vec![8, 7, 6, 5, 4, 3, 2, 1]);
    assert_eq!(encode(TagData::Float(1.0f32.to_bits()), true), 1.0f32.to_le_bytes().to_vec());
    assert_eq!(encode(TagData::Double(1.0f64.to_bits()), false), 1.0f64.to_be_bytes().to_vec());
    assert_eq!(encode(TagData::ByteArray(vec![1, -1]), true), vec![2, 0, 0, 0, 1, 0xff]);
    assert_eq!(encode(TagData::String("hé".to_string()), true), vec![3, 0, b'h', 0xc3, 0xa9]);
    assert_eq!(
        encode(TagData::List(TagKind::Short, vec![TagData::Short(1), TagData::Short(2)]), false),
        vec![2, 0, 0, 0, 2, 0, 1, 0, 2]
    );
    assert_eq!(
        encode(TagData::Compound(vec![tag("k", TagData::Byte(5))]), true),
        vec![1, 1, 0, b'k', 5, 0]
    );
    assert_eq!(
        encode(TagData::IntArray(vec![1, -1]), false),
        vec![0, 0, 0, 2, 0, 0, 0, 1, 0xff, 0xff, 0xff, 0xff]
    );
    assert_eq!(
        encode(TagData::LongArray(vec![-2]), true),
        vec![1, 0, 0, 0, 0xfe, 0xff, 0xff, 0xff, 0xff, 0xff, 0xff, 0xff]
    );
}

#[test]
fn decoding_undoes_encoding_in_both_byte_orders() {
    let tree = sample_tree();
    for le in [true, false] {
        let bytes = tree.as_bytes(le).unwrap();
        assert_eq!(NbtTree::from_bytes(le, bytes), Ok(tree.clone()));
    }
    let empty = NbtTree::new(vec![]);
    assert_eq!(empty.as_bytes(true).unwrap(), Vec::<u8>::new());
    assert_eq!(NbtTree::from_bytes(true, vec![]), Ok(empty));
}

#[test]
fn encoding_twice_gives_the_same_bytes() {
    let tree = sample_tree();
    assert_eq!(tree.as_bytes(true), tree.as_bytes(true));
    assert_eq!(tree.as_bytes(false), sample_tree().as_bytes(false));
    assert_ne!(tree.as_bytes(true), tree.as_bytes(false));
}

#[test]
fn decode_single_int() {
    let tree = NbtTree::from_bytes(true, vec![3, 1, 0, b'a', 0xfe, 0xff, 0xff, 0xff]).unwrap();
    assert_eq!(tree.entries().len(), 1);
    assert_eq!(tree.entries()[0], tag("a", TagData::Int(-2)));
}

#[test]
fn decode_passes_over_zero_bytes_between_tags() {
    let tree = NbtTree::from_bytes(true, vec![0, 1, 0, 0, 9, 0, 0]).unwrap();
    assert_eq!(tree, NbtTree::new(vec![tag("", TagData::Byte(9))]));
}

#[test]
fn decode_reads_a_negative_array_count_as_no_elements() {
    let tree = NbtTree::from_bytes(false, vec![7, 0, 0, 0xff, 0xff, 0xff, 0xff, 1, 0, 0, 5]);
    assert_eq!(
        tree,
        Ok(NbtTree::new(vec![tag("", TagData::ByteArray(vec![])), tag("", TagData::Byte(5))]))
    );
}

#[test]
fn decode_rejects_unknown_kind() {
    assert_eq!(NbtTree::from_bytes(true, vec![13, 0, 0]), Err(NbtError::InvalidTagKind));
    assert_eq!(
        NbtTree::from_bytes(true, vec![9, 0, 0, 200, 0, 0, 0, 0]),
        Err(NbtError::InvalidTagKind)
    );
    assert_eq!(NbtTree::from_bytes(true, vec![10, 0, 0, 77]), Err(NbtError::InvalidTagKind));
}

#[test]
fn decode_rejects_truncated_input() {
    let bytes = sample_tree().as_bytes(true).unwrap();
    for cut in [1, 2, 5, 9, bytes.len() - 3, bytes.len() - 1] {
        assert_eq!(
            NbtTree::from_bytes(true, bytes[..cut].to_vec()),
            Err(NbtError::UnexpectedEndOfInput),
            "cut at {}",
            cut
        );
    }
    assert_eq!(NbtTree::from_bytes(true, vec![10, 0, 0]), Err(NbtError::UnexpectedEndOfInput));
    assert_eq!(
        NbtTree::from_bytes(true, vec![11, 0, 0, 2, 0, 0, 0, 1, 0, 0, 0, 2, 0, 0]),
        Err(NbtError::UnexpectedEndOfInput)
    );
}

#[test]
fn decode_rejects_text_that_is_not_utf8() {
    assert_eq!(NbtTree::from_bytes(true, vec![1, 1, 0, 0xff, 0]), Err(NbtError::InvalidUtf8));
    assert_eq!(
        NbtTree::from_bytes(true, vec![8, 0, 0, 2, 0, 0xc3, 0x28]),
        Err(NbtError::InvalidUtf8)
    );
    assert_eq!(
        NbtTree::from_bytes(true, vec![8, 0, 0, 3, 0, 0xed, 0xa0, 0x80]),
        Err(NbtError::InvalidUtf8)
    );
    assert_eq!(
        NbtTree::from_bytes(true, vec![8, 0, 0, 2, 0, 0xc3, 0xa9]),
        Ok(NbtTree::new(vec![tag("", TagData::String("é".to_string()))]))
    );
}

#[test]
fn a_failed_read_leaves_the_reader_where_it_was() {
    let mut r = NbtReader::new(true, vec![1, 2, 0, b'o', b'k', 4, 0]);
    assert_eq!(r.next_byte(), Ok(1));
    assert_eq!(TagData::from_bytes(&mut r, &TagKind::Long), Err(NbtError::UnexpectedEndOfInput));
    assert_eq!(r.position(), 1);
    assert_eq!(NbtTag::from_bytes(&mut r, &TagKind::Int), Err(NbtError::UnexpectedEndOfInput));
    assert_eq!(r.position(), 1);
    assert_eq!(NbtTag::from_bytes(&mut r, &TagKind::Short), Ok(tag("ok", TagData::Short(4))));
    assert!(r.read_all());
    assert_eq!(r.next_byte(), Err(NbtError::UnexpectedEndOfInput));
}

#[test]
fn reader_reads_in_its_byte_order() {
    let bytes: Vec<u8> = (1..=30).collect();
    let mut le = NbtReader::new(true, bytes.clone());
    let mut be = NbtReader::new(false, bytes);
    assert_eq!(le.u16_from_next_bytes(), Ok(0x0201));
    assert_eq!(be.u16_from_next_bytes(), Ok(0x0102));
    assert_eq!(le.u32_from_next_bytes(), Ok(0x06050403));
    assert_eq!(be.u32_from_next_bytes(), Ok(0x03040506));
    assert_eq!(le.u64_from_next_bytes(), Ok(0x0e0d0c0b0a090807));
    assert_eq!(be.u64_from_next_bytes(), Ok(0x0708090a0b0c0d0e));
    assert_eq!(le.next_bytes::<3>(), Ok([15, 16, 17]));
    assert_eq!(be.take_bytes(3), Ok(vec![15, 16, 17]));
    assert_eq!(le.remaining(), 13);
    assert!(!le.read_all());
    assert_eq!(le.next_bytes::<14>(), Err(NbtError::UnexpectedEndOfInput));
    assert_eq!(le.position(), 17);
    le.rewind(18);
    assert_eq!(le.position(), 17);
    le.rewind(2);
    assert_eq!(le.next_byte(), Ok(3));
    assert!(le.little_endian());
    assert!(!be.little_endian());
}

#[test]
fn reader_reads_signed_values() {
    let mut r = NbtReader::new(true, vec![0xff, 0xfe, 0xff, 0x00, 0x00, 0x00, 0x80, 0x80]);
    assert_eq!(r.i8_from_next_byte(), Ok(-1));
    assert_eq!(r.i16_from_next_bytes(), Ok(-2));
    assert_eq!(r.i32_from_next_bytes(), Ok(i32::MIN));
    assert_eq!(r.i8_from_next_byte(), Ok(-128));
    let mut r = NbtReader::new(false, vec![0x80, 0, 0, 0, 0, 0, 0, 1]);
    assert_eq!(r.i64_from_next_bytes(), Ok(i64::MIN + 1));
}

#[test]
fn writer_writes_in_its_byte_order() {
    let mut le = NbtWriter::new(true);
    let mut be = NbtWriter::new(false);
    for w in [&mut le, &mut be] {
        w.write(0xaa);
        w.u16_write_to_bytes(0x0102);
        w.u32_write_to_bytes(0x03040506);
        w.u64_write_to_bytes(0x0708090a0b0c0d0e);
        w.i8_write_to_bytes(-1);
        w.i16_write_to_bytes(-2);
        w.i32_write_to_bytes(-3);
        w.i64_write_to_bytes(i64::MIN);
        w.write_bytes(&[1, 2, 3]);
    }
    assert_eq!(
        le.into_bytes(),
        vec![
            0xaa, 2, 1, 6, 5, 4, 3, 14, 13, 12, 11, 10, 9, 8, 7, 0xff, 0xfe, 0xff, 0xfd, 0xff,
            0xff, 0xff, 0, 0, 0, 0, 0, 0, 0, 0x80, 1, 2, 3
        ]
    );
    assert_eq!(
        be.into_bytes(),
        vec![
            0xaa, 1, 2, 3, 4, 5, 6, 7, 8, 9, 10, 11, 12, 13, 14, 0xff, 0xff, 0xfe, 0xff, 0xff,
            0xff, 0xfd, 0x80, 0, 0, 0, 0, 0, 0, 0, 1, 2, 3
        ]
    );
}

#[test]
fn a_list_with_an_element_of_another_kind_is_refused() {
    assert_eq!(
        TagData::list(TagKind::Int, vec![TagData::Int(1), TagData::Short(2)]),
        Err(NbtError::ListElementKindMismatch)
    );
    assert_eq!(
        TagData::list(TagKind::Int, vec![TagData::Int(1), TagData::Int(2)]),
        Ok(TagData::List(TagKind::Int, vec![TagData::Int(1), TagData::Int(2)]))
    );
    assert_eq!(TagData::list(TagKind::Long, vec![]), Ok(TagData::List(TagKind::Long, vec![])));

    let bad = TagData::List(TagKind::Int, vec![TagData::Int(1), TagData::Short(2)]);
    assert!(!bad.is_homogeneous());
    let mut w = NbtWriter::new(true);
    w.write(9);
    assert_eq!(bad.as_bytes(&mut w), Err(NbtError::ListElementKindMismatch));
    assert_eq!(w.into_bytes(), vec![9]);

    let nested = TagData::Compound(vec![tag(
        "deep",
        TagData::List(TagKind::List, vec![TagData::List(TagKind::Byte, vec![TagData::Int(1)])]),
    )]);
    let mut w = NbtWriter::new(false);
    assert_eq!(tag("outer", nested.clone()).as_bytes(&mut w), Err(NbtError::ListElementKindMismatch));
    assert_eq!(w.into_bytes(), Vec::<u8>::new());
    let mut tree = NbtTree::new(vec![tag("fine", TagData::Int(1))]);
    tree.add_entry("outer", nested);
    assert_eq!(tree.as_bytes(true), Err(NbtError::ListElementKindMismatch));
}

#[test]
fn children_are_added_to_compounds_only() {
    let mut compound = TagData::Compound(vec![]);
    assert_eq!(compound.add_tag("a", TagData::Int(1)), Ok(()));
    assert_eq!(compound.add_tag("b", TagData::Int(2)), Ok(()));
    assert_eq!(
        compound,
        TagData::Compound(vec![tag("a", TagData::Int(1)), tag("b", TagData::Int(2))])
    );
    let mut list = TagData::List(TagKind::Int, vec![]);
    assert_eq!(list.add_tag("a", TagData::Int(1)), Err(NbtError::NotACompound));
    assert_eq!(list, TagData::List(TagKind::Int, vec![]));
    let mut int = TagData::Int(3);
    assert_eq!(int.add_tag("a", TagData::Int(1)), Err(NbtError::NotACompound));
    assert_eq!(int.find_child_mut("a").err(), Some(NbtError::NotACompound));
}

#[test]
fn lookup_finds_the_first_child_with_the_name() {
    let mut compound = TagData::Compound(vec![
        tag("a", TagData::Int(1)),
        tag("b", TagData::Int(2)),
        tag("b", TagData::Int(3)),
    ]);
    match compound.find_child_mut("b") {
        Ok(Some(child)) => {
            assert_eq!(*child, TagData::Int(2));
            *child = TagData::String("changed".to_string());
        }
        _ => panic!("child not found"),
    }
    assert!(matches!(compound.find_child_mut("c"), Ok(None)));
    assert_eq!(
        compound,
        TagData::Compound(vec![
            tag("a", TagData::Int(1)),
            tag("b", TagData::String("changed".to_string())),
            tag("b", TagData::Int(3)),
        ])
    );
}

#[test]
fn kind_codes() {
    let kinds = [
        TagKind::End,
        TagKind::Byte,
        TagKind::Short,
        TagKind::Int,
        TagKind::Long,
        TagKind::Float,
        TagKind::Double,
        TagKind::ByteArray,
        TagKind::String,
        TagKind::List,
        TagKind::Compound,
        TagKind::IntArray,
        TagKind::LongArray,
    ];
    for (code, kind) in kinds.into_iter().enumerate() {
        assert_eq!(kind.code() as usize, code);
        assert_eq!(TagKind::from_u8(code as u8), Ok(kind));
    }
    for code in 13..=255u8 {
        assert_eq!(TagKind::from_u8(code), Err(NbtError::InvalidTagKind));
    }
}

#[test]
fn kinds_of_payloads() {
    assert_eq!(TagData::End.kind(), TagKind::End);
    assert_eq!(TagData::Float(0).kind(), TagKind::Float);
    assert_eq!(TagData::Double(0).kind(), TagKind::Double);
    assert_eq!(TagData::LongArray(vec![]).kind(), TagKind::LongArray);
    assert_eq!(TagData::List(TagKind::Int, vec![]).kind(), TagKind::List);
    assert_eq!(TagData::Compound(vec![]).kind(), TagKind::Compound);
}

fn line(indent: usize, id: Option<&str>, body: LineBody) -> Line {
    Line { indent, id: id.map(|s| s.to_string()), body }
}

#[test]
fn lines_of_a_tree() {
    let tree = NbtTree::new(vec![
        tag("n", TagData::Int(5)),
        tag(
            "c",
            TagData::Compound(vec![
                tag("l", TagData::List(TagKind::Byte, vec![TagData::Byte(1), TagData::Byte(2)])),
                tag("e", TagData::List(TagKind::Byte, vec![])),
                tag("a", TagData::IntArray(vec![-7])),
                tag("s", TagData::String("hi".to_string())),
                tag("f", TagData::Float(7)),
            ]),
        ),
        tag("none", TagData::Compound(vec![])),
        tag("end", TagData::End),
    ]);
    let expected = vec![
        line(0, Some("n"), LineBody::Int(5)),
        line(0, Some("c"), LineBody::Open(TagKind::Compound)),
        line(1, Some("l"), LineBody::Open(TagKind::List)),
        line(2, None, LineBody::Byte(1)),
        line(2, None, LineBody::Byte(2)),
        line(1, None, LineBody::Close(TagKind::List)),
        line(1, Some("e"), LineBody::Empty(TagKind::List)),
        line(1, Some("a"), LineBody::Open(TagKind::IntArray)),
        line(2, None, LineBody::Element(-7)),
        line(1, None, LineBody::Close(TagKind::IntArray)),
        line(1, Some("s"), LineBody::Text("hi".to_string())),
        line(1, Some("f"), LineBody::Float(7)),
        line(0, None, LineBody::Close(TagKind::Compound)),
        line(0, Some("none"), LineBody::Empty(TagKind::Compound)),
        line(0, Some("end"), LineBody::Unknown),
    ];
    assert_eq!(tree.lines(), expected);
    assert_eq!(tree.entries()[0].lines(3), vec![line(3, Some("n"), LineBody::Int(5))]);
    assert_eq!(
        TagData::ByteArray(vec![-1]).lines(usize::MAX),
        vec![
            line(usize::MAX, None, LineBody::Open(TagKind::ByteArray)),
            line(usize::MAX, None, LineBody::Element(-1)),
            line(usize::MAX, None, LineBody::Close(TagKind::ByteArray)),
        ]
    );
}

#[test]
fn labels_of_kind_codes() {
    assert_eq!(to_tag_string(1), "TAG_Byte");
    assert_eq!(to_tag_string(2), "TAG_Short");
    assert_eq!(to_tag_string(3), "TAG_Int");
    assert_eq!(to_tag_string(4), "TAG_Long");
    assert_eq!(to_tag_string(5), "TAG_Float");
    assert_eq!(to_tag_string(8), "TAG_String");
    assert_eq!(to_tag_string(9), "TAG_List");
    assert_eq!(to_tag_string(10), "TAG_Compound");
    assert_eq!(to_tag_string(0), "unknown_tag");
    assert_eq!(to_tag_string(6), "unknown_tag");
    assert_eq!(to_tag_string(200), "unknown_tag");
}

#[test]
fn an_identifier_too_long_for_its_count_is_written_with_the_low_bits_of_its_length() {
    let long = "x".repeat(0x1_0001);
    let mut w = NbtWriter::new(true);
    tag(&long, TagData::Byte(1)).as_bytes(&mut w).unwrap();
    let bytes = w.into_bytes();
    assert_eq!(bytes.len(), 1 + 2 + 0x1_0001 + 1);
    assert_eq!(&bytes[..4], &[1, 1, 0, b'x']);
}

#[test]
fn copies_hold_the_same() {
    let tree = sample_tree();
    let copy = tree.clone();
    assert_eq!(tree, copy);
    assert_eq!(tree.entries()[13].clone(), tree.entries()[13]);
    assert_eq!(tree.entries()[12].data.clone(), tree.entries()[12].data);
}

#[test]
fn lookup_without_change() {
    let compound = TagData::Compound(vec![
        tag("a", TagData::Int(1)),
        tag("b", TagData::Int(2)),
        tag("b", TagData::Int(3)),
    ]);
    assert_eq!(compound.find_child("b"), Ok(Some(&TagData::Int(2))));
    assert_eq!(compound.find_child("a"), Ok(Some(&TagData::Int(1))));
    assert_eq!(compound.find_child("c"), Ok(None));
    assert_eq!(TagData::Compound(vec![]).find_child(""), Ok(None));
    assert_eq!(TagData::String("b".to_string()).find_child("b"), Err(NbtError::NotACompound));
}

#[test]
fn text_of_lines() {
    let tree = NbtTree::new(vec![
        tag("n", TagData::Int(-5)),
        tag(
            "c",
            TagData::Compound(vec![
                tag("l", TagData::List(TagKind::Long, vec![TagData::Long(i64::MIN)])),
                tag("e", TagData::ByteArray(vec![])),
                tag("a", TagData::IntArray(vec![-7, 120])),
                tag("s", TagData::String("hi".to_string())),
                tag("f", TagData::Float(1.5f32.to_bits())),
                tag("d", TagData::Double(0)),
                tag("b", TagData::Byte(-128)),
                tag("h", TagData::Short(255)),
            ]),
        ),
        tag("", TagData::Compound(vec![])),
        tag("end", TagData::End),
    ]);
    let plain: Vec<String> = tree.lines().iter().map(|l| l.text(false)).collect();
    assert_eq!(
        plain,
        vec![
            "n: TAG_Int = -5",
            "c: TAG_Compound = {",
            "  l: TAG_List = [",
            "    TAG_Long = -9223372036854775808",
            "  ]",
            "  e: TAG_ByteArray = []",
            "  a: TAG_IntArray = [",
            "    -7",
            "    120",
            "  ]",
            "  s: TAG_String = 'hi'",
            "  f: TAG_Float = 0x3fc00000",
            "  d: TAG_Double = 0x0",
            "  b: TAG_Byte = -128",
            "  h: TAG_Short = 255",
            "}",
            ": TAG_Compound = {}",
            "end: Unknown Tag",
        ]
    );
    let lines = tree.lines();
    assert_eq!(lines[0].text(true), "n: \x1b[36mTAG_Int\x1b[0m = \x1b[33m-5\x1b[0m");
    assert_eq!(lines[1].text(true), "c: \x1b[36mTAG_Compound\x1b[0m = {");
    assert_eq!(lines[4].text(true), "  ]");
    assert_eq!(lines[5].text(true), "  e: \x1b[36mTAG_ByteArray\x1b[0m = []");
    assert_eq!(lines[7].text(true), "    \x1b[33m-7\x1b[0m");
    assert_eq!(lines[10].text(true), "  s: \x1b[36mTAG_String\x1b[0m = \x1b[32m'hi'\x1b[0m");
    assert_eq!(lines[10].prefix(), "  s: ");
    assert_eq!(lines[3].prefix(), "    ");
}

#[test]
fn numbers_as_text() {
    assert_eq!(decimal_string(0), "0");
    assert_eq!(decimal_string(9), "9");
    assert_eq!(decimal_string(10), "10");
    assert_eq!(decimal_string(u64::MAX), "18446744073709551615");
    assert_eq!(hexadecimal_string(0), "0");
    assert_eq!(hexadecimal_string(0xabcdef0123456789), "abcdef0123456789");
    assert_eq!(hexadecimal_string(16), "10");
    assert_eq!(signed_decimal_string(0), "0");
    assert_eq!(signed_decimal_string(-1), "-1");
    assert_eq!(signed_decimal_string(i64::MAX), "9223372036854775807");
    assert_eq!(signed_decimal_string(i64::MIN), "-9223372036854775808");
}

#[test]
fn strings_are_compared_by_their_characters() {
    assert!(str_eq("", ""));
    assert!(str_eq("grüße", "grüße"));
    assert!(!str_eq("a", "b"));
    assert!(!str_eq("a", "ab"));
    assert!(!str_eq("ab", "a"));
}
