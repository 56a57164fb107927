use asset_parsers::asb::blackboard::{BlackboardValue, LocalBlackboard};
use asset_parsers::asb::command::AsbCommand;
use asset_parsers::asb::node_tables::guid;
use asset_parsers::asb::parameter::{read_parameter, AsbParameter, ParamValue, ParameterType};
use asset_parsers::asb::writer::{parse_hex, patch, reserve_one, reserve_u32, write_guid, write_tag_ref, StringPool};
use asset_parsers::binary::{BinaryReader, BinaryWriter};
use asset_parsers::error::ErrorKind;

#[test]
fn string_pool_reuses_offsets() {
    let mut pool = StringPool::default();
    assert_eq!(pool.offset(""), 0);
    assert_eq!(pool.offset("Idle"), 1);
    assert_eq!(pool.offset("Run"), 6);
    assert_eq!(pool.offset("Idle"), 1);
    assert_eq!(pool.offset("Run"), 6);
    assert_eq!(pool.offset("é"), 10);
}

#[test]
fn asb_hex_numbers_drop_leading_prefixes() {
    assert_eq!(parse_hex("0x417").unwrap(), 0x417);
    assert_eq!(parse_hex("40f").unwrap(), 0x40f);
    assert_eq!(parse_hex("0x0x1F").unwrap(), 0x1f);
    assert_eq!(parse_hex("ffffffff").unwrap(), u32::MAX);
    assert_eq!(parse_hex("0x").unwrap_err().kind, ErrorKind::Other);
    assert_eq!(parse_hex("100000000").unwrap_err().kind, ErrorKind::Other);
    assert_eq!(parse_hex("xyz").unwrap_err().kind, ErrorKind::Other);
}

#[test]
fn asb_guids_are_written_field_by_field() {
    let mut w = BinaryWriter::new();
    write_guid(&mut w, "12345678-9abc-def0-1234-56789abcdef0").unwrap();
    let bytes = w.into_inner();
    assert_eq!(
        bytes,
        vec![0x78, 0x56, 0x34, 0x12, 0xbc, 0x9a, 0xf0, 0xde, 0x34, 0x12, 0x56, 0x78, 0x9a, 0xbc, 0xde, 0xf0]
    );
    let mut r = BinaryReader::new(&bytes);
    assert_eq!(guid(&mut r).unwrap(), "12345678-9abc-def0-1234-56789abcdef0");
    let mut w = BinaryWriter::new();
    assert_eq!(write_guid(&mut w, "1234567-9abc-def0-1234-56789abcdef0").unwrap_err().kind, ErrorKind::InvalidData);
    assert_eq!(write_guid(&mut w, "12345678-9abc-def0-1234-56789abcdefg").unwrap_err().kind, ErrorKind::InvalidData);
    assert_eq!(write_guid(&mut w, "12345678+9abc-def0-1234-56789abcdef0").unwrap_err().kind, ErrorKind::InvalidData);
    assert!(w.into_inner().is_empty());
}

#[test]
fn reserved_words_are_patched_later() {
    let mut w = BinaryWriter::new();
    w.write_u8(9);
    let at = reserve_one(&mut w);
    assert_eq!(at, 1);
    let slots = reserve_u32(&mut w, 2);
    assert_eq!(slots, vec![5, 9]);
    patch(&mut w, slots[1], 0x0403_0201);
    let mut patches = Vec::new();
    let tags = vec!["Loop".to_string()];
    write_tag_ref(&mut w, Some(&tags), &mut patches);
    write_tag_ref(&mut w, None, &mut patches);
    assert_eq!(patches, vec![(13, tags.clone())]);
    assert_eq!(w.into_inner(), vec![9, 0, 0, 0, 0, 0, 0, 0, 0, 1, 2, 3, 4, 0, 0, 0, 0, 0, 0, 0, 0]);
}

/// A command record: name offset, optional tag list offset, two parameters, a number,
/// a GUID and the two node indices.
fn command_record(tags_offset: Option<u32>, second_word: u32) -> Vec<u8> {
    let mut data = Vec::new();
    data.extend_from_slice(&0u32.to_le_bytes());
    if let Some(t) = tags_offset {
        data.extend_from_slice(&t.to_le_bytes());
    }
    data.extend_from_slice(&0u32.to_le_bytes());
    data.extend_from_slice(&0x3f80_0000u32.to_le_bytes());
    data.extend_from_slice(&second_word.to_le_bytes());
    data.extend_from_slice(&0u32.to_le_bytes());
    data.extend_from_slice(&7u32.to_le_bytes());
    data.extend_from_slice(&[0x78, 0x56, 0x34, 0x12, 0xbc, 0x9a, 0xf0, 0xde, 0x34, 0x12, 0x56, 0x78, 0x9a, 0xbc, 0xde, 0xf0]);
    data.extend_from_slice(&2u16.to_le_bytes());
    data.extend_from_slice(&0u16.to_le_bytes());
    data
}

#[test]
fn asb_commands_read_their_fields() {
    let pool_bytes = b"Cmd\0Tag\0".to_vec();
    let pool = BinaryReader::new(&pool_bytes);
    let data = command_record(None, 0x8100_0005);
    let mut r = BinaryReader::new(&data);
    let c = AsbCommand::read(&mut r, &pool, 0x40f).unwrap();
    assert_eq!(r.position(), data.len());
    assert_eq!(c.name, "Cmd");
    assert!(c.tags.is_none());
    assert!(matches!(c.unknown_1, AsbParameter::Value(ParamValue::Float(0x3f80_0000))));
    assert!(matches!(c.unknown_2, AsbParameter::Exb { index: 5, default: None }));
    assert_eq!(c.unknown_3, 7);
    assert_eq!(c.guid, "12345678-9abc-def0-1234-56789abcdef0");
    assert_eq!((c.left_node_index, c.right_node_index), (2, -1));

    let mut data = command_record(Some(48), 0x8000_0003);
    data.extend_from_slice(&1u32.to_le_bytes());
    data.extend_from_slice(&4u32.to_le_bytes());
    let mut r = BinaryReader::new(&data);
    let c = AsbCommand::read(&mut r, &pool, 0x417).unwrap();
    assert_eq!(r.position(), 48);
    assert_eq!(c.tags, Some(vec!["Tag".to_string()]));
    assert!(matches!(c.unknown_2, AsbParameter::Blackboard { flags: 0x8000, index: 3, default: None, .. }));

    let mut r = BinaryReader::new(&data[..40]);
    assert_eq!(AsbCommand::read(&mut r, &pool, 0x417).unwrap_err().kind, ErrorKind::UnexpectedEof);
}

#[test]
fn asb_parameters_keep_set_defaults() {
    let pool_bytes = b"Idle\0".to_vec();
    let pool = BinaryReader::new(&pool_bytes);
    let mut data = Vec::new();
    data.extend_from_slice(&0x8000_0002u32.to_le_bytes());
    data.extend_from_slice(&0u32.to_le_bytes());
    data.extend_from_slice(&0x8000_0002u32.to_le_bytes());
    data.extend_from_slice(&99u32.to_le_bytes());
    data.extend_from_slice(&0x8000_0001u32.to_le_bytes());
    data.extend_from_slice(&0x8000_0000u32.to_le_bytes());
    data.extend_from_slice(&0xc200_0001u32.to_le_bytes());
    data.extend_from_slice(&0x3f80_0000u32.to_le_bytes());
    let mut r = BinaryReader::new(&data);
    let first = read_parameter(&mut r, &pool, ParameterType::String).unwrap();
    assert!(matches!(first, AsbParameter::Blackboard { flags: 0x8000, index: 2, default: Some(ParamValue::String(ref s)), .. } if s == "Idle"));
    let past_pool = read_parameter(&mut r, &pool, ParameterType::String).unwrap();
    assert!(matches!(past_pool, AsbParameter::Blackboard { default: None, .. }));
    let negative_zero = read_parameter(&mut r, &pool, ParameterType::Float).unwrap();
    assert!(matches!(negative_zero, AsbParameter::Blackboard { flags: 0x8000, index: 1, default: None, .. }));
    let indexed = read_parameter(&mut r, &pool, ParameterType::Float).unwrap();
    assert!(matches!(indexed, AsbParameter::Indexed { flags: 0xc200, index: 1, default: Some(ParamValue::Float(0x3f80_0000)) }));
    assert_eq!(r.position(), data.len());
    assert_eq!(read_parameter(&mut r, &pool, ParameterType::Int).unwrap_err().kind, ErrorKind::UnexpectedEof);
}

fn blackboard_bytes() -> Vec<u8> {
    let mut data = Vec::new();
    for (count, offset) in [(1u16, 0u16), (0, 0), (1, 4), (0, 0), (0, 0), (1, 8)] {
        data.extend_from_slice(&count.to_le_bytes());
        data.extend_from_slice(&0u16.to_le_bytes());
        data.extend_from_slice(&offset.to_le_bytes());
        data.extend_from_slice(&0u16.to_le_bytes());
    }
    for word in [0u32, 0x8100_0005, 11] {
        data.extend_from_slice(&word.to_le_bytes());
    }
    data.extend_from_slice(&11u32.to_le_bytes());
    data.extend_from_slice(&0x3f80_0000u32.to_le_bytes());
    for name in [16u32, 22] {
        data.extend_from_slice(&name.to_le_bytes());
        data.extend_from_slice(&[0; 12]);
    }
    data
}

#[test]
fn asb_blackboards_group_parameters_by_type_name() {
    let pool_bytes = b"Name\0Speed\0User\0File0\0File1\0".to_vec();
    let pool = BinaryReader::new(&pool_bytes);
    let data = blackboard_bytes();
    let mut r = BinaryReader::new(&data);
    let bb = LocalBlackboard::read(&mut r, &pool).unwrap();
    assert_eq!(r.position(), 100);
    let names: Vec<&str> = bb.0.iter().map(|(n, _)| n.as_str()).collect();
    assert_eq!(names, vec!["float", "string", "userdefined"]);
    let speed = &bb.0[0].1[0];
    assert_eq!(speed.name, "Speed");
    assert!(matches!(speed.init_value, BlackboardValue::Float(0x3f80_0000)));
    assert_eq!(speed.file_reference.as_ref().unwrap().filename, "File1");
    let name = &bb.0[1].1[0];
    assert_eq!(name.name, "Name");
    assert!(matches!(&name.init_value, BlackboardValue::String(s) if s == "User"));
    assert!(name.file_reference.is_none());
    assert!(matches!(bb.0[2].1[0].init_value, BlackboardValue::Null));

    let mut r = BinaryReader::new(&data[..84]);
    assert_eq!(LocalBlackboard::read(&mut r, &pool).unwrap_err().kind, ErrorKind::UnexpectedEof);
}
