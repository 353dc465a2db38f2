use mc_protocol::data::buffer::Buffer;
use mc_protocol::data::DataError;
use mc_protocol::nbt::reader::{decode_nbt, NbtReader};
use mc_protocol::nbt::writer::{encode_nbt, get_id, NbtWriter};
use mc_protocol::nbt::Tag;

fn named(name: &str, tag: Tag) -> (String, Tag) {
    (name.to_string(), tag)
}

fn bob() -> Tag {
    Tag::Compound(vec![named("name", Tag::String("Bob".to_string()))])
}

#[test]
fn compound_with_a_name_round_trips() {
    let bytes = encode_nbt(&bob(), false).unwrap();
    assert_eq!(
        bytes,
        vec![0x0a, 0x08, 0x00, 0x04, b'n', b'a', b'm', b'e', 0x00, 0x03, b'B', b'o', b'b', 0x00]
    );
    assert_eq!(decode_nbt(&bytes, false), Ok((bob(), bytes.len())));
}

#[test]
fn file_mode_carries_an_empty_name_behind_the_root_tag() {
    let bytes = encode_nbt(&bob(), true).unwrap();
    assert_eq!(
        bytes,
        vec![
            0x0a, 0x00, 0x00, 0x08, 0x00, 0x04, b'n', b'a', b'm', b'e', 0x00, 0x03, b'B', b'o',
            b'b', 0x00
        ]
    );
    assert_eq!(decode_nbt(&bytes, true), Ok((bob(), bytes.len())));
}

#[test]
fn file_mode_passes_over_a_root_name() {
    let bytes = [0x0a, 0x00, 0x02, b'h', b'i', 0x01, 0x00, 0x01, b'b', 0x7f, 0x00];
    assert_eq!(
        decode_nbt(&bytes, true),
        Ok((Tag::Compound(vec![named("b", Tag::Byte(127))]), bytes.len()))
    );
}

#[test]
fn nbt_through_a_buffer() {
    let mut buffer = Buffer::new(Vec::new());
    assert_eq!(buffer.write_nbt(bob(), false), Ok(()));
    assert_eq!(buffer.write_nbt(bob(), true), Ok(()));
    assert_eq!(buffer.read_nbt(false), Ok(bob()));
    assert_eq!(buffer.position(), 14);
    assert_eq!(buffer.read_nbt(true), Ok(bob()));
    assert_eq!(buffer.read_nbt(false), Err(DataError::ReadError));
}

#[test]
fn list_of_mixed_types_is_not_written() {
    let mixed = Tag::Compound(vec![named("l", Tag::List(vec![Tag::Byte(1), Tag::Short(2)]))]);
    assert_eq!(encode_nbt(&mixed, false), Err(DataError::NBTError));
    let deep = Tag::Compound(vec![named(
        "outer",
        Tag::List(vec![Tag::List(vec![Tag::Int(1)]), Tag::List(vec![Tag::Int(1), Tag::Long(2)])]),
    )]);
    assert_eq!(encode_nbt(&deep, true), Err(DataError::NBTError));
    let mut buffer = Buffer::new(vec![9]);
    assert_eq!(buffer.write_nbt(mixed, false), Err(DataError::NBTError));
    assert_eq!(buffer.get_ref(), &[9]);
}

#[test]
fn root_must_be_a_compound() {
    assert_eq!(encode_nbt(&Tag::Byte(1), false), Err(DataError::NBTError));
    assert_eq!(encode_nbt(&Tag::List(vec![]), true), Err(DataError::NBTError));
    assert_eq!(decode_nbt(&[0x09, 0x00, 0x00], false), Err(DataError::NBTError));
    assert_eq!(decode_nbt(&[0x00], false), Err(DataError::NBTError));
    assert_eq!(decode_nbt(&[0x0b, 0x00], true), Err(DataError::NBTError));
    assert_eq!(decode_nbt(&[], false), Err(DataError::ReadError));
    let mut buffer = Buffer::new(vec![0x08, 0x00, 0x00]);
    assert_eq!(buffer.read_nbt(false), Err(DataError::NBTError));
    assert_eq!(buffer.position(), 0);
}

#[test]
fn every_kind_of_tag_round_trips() {
    let tree = Tag::Compound(vec![
        named("byte", Tag::Byte(-1)),
        named("short", Tag::Short(-2)),
        named("int", Tag::Int(i32::MIN)),
        named("long", Tag::Long(i64::MAX)),
        named("float", Tag::Float(1.5f32.to_bits())),
        named("double", Tag::Double((-2.25f64).to_bits())),
        named("bytes", Tag::ByteArray(vec![-128, 0, 127])),
        named("text", Tag::String("Привет".to_string())),
        named("list", Tag::List(vec![Tag::Int(1), Tag::Int(2), Tag::Int(3)])),
        named("none", Tag::List(vec![])),
        named("ends", Tag::List(vec![Tag::End, Tag::End])),
        named(
            "inner",
            Tag::Compound(vec![
                named("", Tag::String(String::new())),
                named("deep", Tag::List(vec![Tag::Compound(vec![]), bob()])),
            ]),
        ),
        named("ints", Tag::IntArray(vec![1, -1, i32::MAX])),
        named("longs", Tag::LongArray(vec![i64::MIN, 0])),
    ]);
    for to_file in [false, true] {
        let bytes = encode_nbt(&tree, to_file).unwrap();
        let (back, used) = decode_nbt(&bytes, to_file).unwrap();
        assert_eq!(used, bytes.len());
        assert_eq!(back, tree);
    }
}

#[test]
fn values_are_written_as_the_format_says() {
    let one = |tag: Tag| encode_nbt(&Tag::Compound(vec![named("", tag)]), false).unwrap();
    assert_eq!(one(Tag::Byte(-1)), vec![0x0a, 1, 0, 0, 0xff, 0]);
    assert_eq!(one(Tag::Short(258)), vec![0x0a, 2, 0, 0, 1, 2, 0]);
    assert_eq!(one(Tag::Int(-2)), vec![0x0a, 3, 0, 0, 0xff, 0xff, 0xff, 0xfe, 0]);
    assert_eq!(one(Tag::Long(1)), vec![0x0a, 4, 0, 0, 0, 0, 0, 0, 0, 0, 0, 1, 0]);
    assert_eq!(one(Tag::Float(1.5f32.to_bits())), vec![0x0a, 5, 0, 0, 0x3f, 0xc0, 0, 0, 0]);
    assert_eq!(
        one(Tag::Double(1.0f64.to_bits())),
        vec![0x0a, 6, 0, 0, 0x3f, 0xf0, 0, 0, 0, 0, 0, 0, 0]
    );
    assert_eq!(one(Tag::ByteArray(vec![-1, 2])), vec![0x0a, 7, 0, 0, 0, 2, 0xff, 2, 0]);
    assert_eq!(one(Tag::String("é".to_string())), vec![0x0a, 8, 0, 0, 0, 2, 0xc3, 0xa9, 0]);
    assert_eq!(
        one(Tag::List(vec![Tag::Byte(5), Tag::Byte(6)])),
        vec![0x0a, 9, 0, 0, 1, 0, 0, 0, 2, 5, 6, 0]
    );
    assert_eq!(one(Tag::List(vec![])), vec![0x0a, 9, 0, 0, 0, 0, 0, 0, 0, 0]);
    assert_eq!(one(Tag::Compound(vec![])), vec![0x0a, 10, 0, 0, 0, 0]);
    assert_eq!(
        one(Tag::IntArray(vec![1, -1])),
        vec![0x0a, 11, 0, 0, 0, 0, 0, 2, 0, 0, 0, 1, 0xff, 0xff, 0xff, 0xff, 0]
    );
    assert_eq!(
        one(Tag::LongArray(vec![2])),
        vec![0x0a, 12, 0, 0, 0, 0, 0, 1, 0, 0, 0, 0, 0, 0, 0, 2, 0]
    );
}

#[test]
fn tag_ids_are_those_of_the_format() {
    assert_eq!(get_id(&Tag::End), 0);
    assert_eq!(get_id(&Tag::Byte(0)), 1);
    assert_eq!(get_id(&Tag::Short(0)), 2);
    assert_eq!(get_id(&Tag::Int(0)), 3);
    assert_eq!(get_id(&Tag::Long(0)), 4);
    assert_eq!(get_id(&Tag::Float(0)), 5);
    assert_eq!(get_id(&Tag::Double(0)), 6);
    assert_eq!(get_id(&Tag::ByteArray(vec![])), 7);
    assert_eq!(get_id(&Tag::String(String::new())), 8);
    assert_eq!(get_id(&Tag::List(vec![])), 9);
    assert_eq!(get_id(&Tag::Compound(vec![])), 10);
    assert_eq!(get_id(&Tag::IntArray(vec![])), 11);
    assert_eq!(get_id(&Tag::LongArray(vec![])), 12);
}

#[test]
fn a_name_read_twice_keeps_its_place_and_the_last_value() {
    let bytes = [
        0x0a, 1, 0, 1, b'a', 1, 1, 0, 1, b'b', 2, 1, 0, 1, b'a', 3, 0,
    ];
    assert_eq!(
        decode_nbt(&bytes, false),
        Ok((
            Tag::Compound(vec![named("a", Tag::Byte(3)), named("b", Tag::Byte(2))]),
            bytes.len()
        ))
    );
}

#[test]
fn list_with_a_count_that_is_not_positive_is_empty() {
    let negative = [0x0a, 9, 0, 1, b'l', 1, 0xff, 0xff, 0xff, 0xff, 0];
    assert_eq!(
        decode_nbt(&negative, false),
        Ok((Tag::Compound(vec![named("l", Tag::List(vec![]))]), negative.len()))
    );
    let zero_of_unknown_type = [0x0a, 9, 0, 1, b'l', 99, 0, 0, 0, 0, 0];
    assert_eq!(
        decode_nbt(&zero_of_unknown_type, false),
        Ok((Tag::Compound(vec![named("l", Tag::List(vec![]))]), zero_of_unknown_type.len()))
    );
}

#[test]
fn list_items_have_the_declared_type_and_no_names() {
    let bytes = [0x0a, 9, 0, 1, b'l', 2, 0, 0, 0, 2, 0, 5, 0, 6, 0];
    assert_eq!(
        decode_nbt(&bytes, false),
        Ok((
            Tag::Compound(vec![named("l", Tag::List(vec![Tag::Short(5), Tag::Short(6)]))]),
            bytes.len()
        ))
    );
}

#[test]
fn unknown_types_are_format_violations() {
    assert_eq!(decode_nbt(&[0x0a, 13, 0, 0, 1, 0], false), Err(DataError::NBTError));
    assert_eq!(
        decode_nbt(&[0x0a, 9, 0, 0, 77, 0, 0, 0, 1, 1, 0], false),
        Err(DataError::NBTError)
    );
}

#[test]
fn trees_cut_short_are_read_errors() {
    let bytes = encode_nbt(&bob(), false).unwrap();
    for cut in 1..bytes.len() {
        assert_eq!(decode_nbt(&bytes[..cut], false), Err(DataError::ReadError));
    }
    assert_eq!(decode_nbt(&[0x0a, 11, 0, 0, 0, 0, 0, 2, 0, 0, 0, 1], false), Err(DataError::ReadError));
    assert_eq!(decode_nbt(&[0x0a, 12, 0, 0, 0xff, 0xff, 0xff, 0xff], false), Err(DataError::ReadError));
    assert_eq!(decode_nbt(&[0x0a, 7, 0, 0, 0, 3, 1, 2], false), Err(DataError::ReadError));
    assert_eq!(decode_nbt(&[0x0a, 0, 5, b'x'], true), Err(DataError::ReadError));
}

#[test]
fn text_that_is_not_utf8_is_read_leniently() {
    let bytes = [0x0a, 8, 0, 1, b's', 0, 3, b'a', 0xff, b'b', 0];
    assert_eq!(
        decode_nbt(&bytes, false),
        Ok((
            Tag::Compound(vec![named("s", Tag::String("a\u{fffd}b".to_string()))]),
            bytes.len()
        ))
    );
}

#[test]
fn what_is_read_can_be_written_again() {
    let bytes = [
        0x0a, 9, 0, 1, b'l', 10, 0, 0, 0, 2, 1, 0, 1, b'x', 7, 0, 3, 0, 1, b'y', 0, 0, 0, 9, 0, 0,
    ];
    let (tree, used) = decode_nbt(&bytes, false).unwrap();
    assert_eq!(used, bytes.len());
    assert_eq!(
        tree,
        Tag::Compound(vec![named(
            "l",
            Tag::List(vec![
                Tag::Compound(vec![named("x", Tag::Byte(7))]),
                Tag::Compound(vec![named("y", Tag::Int(9))]),
            ])
        )])
    );
    assert_eq!(encode_nbt(&tree, false), Ok(bytes.to_vec()));
}
