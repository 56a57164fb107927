use asset_parsers::ainb::common::{murmur3_32, AinbWriter};
use asset_parsers::ainb::node::read_guid;
use asset_parsers::ainb::param_set::read_param_set;
use asset_parsers::ainb::parameter::{ParamFlags, ParamSource};
use asset_parsers::ainb::attachment::Attachment;
use asset_parsers::ainb::property::{read_property_set, AinbValue, Property};
use asset_parsers::error::ErrorKind;
use asset_parsers::binary::BinaryReader;

#[test]
fn murmur3_matches_known_vectors() {
    assert_eq!(murmur3_32(""), 0);
    assert_eq!(murmur3_32("foo"), 0xf6a5_c420);
    assert_eq!(murmur3_32("hello"), 0x248b_fa47);
}

#[test]
fn guids_read_then_written_give_back_their_bytes() {
    let bytes: Vec<u8> = vec![0x0f, 0x00, 0xa0, 0x01, 0x02, 0x00, 0xff, 0xee, 0, 1, 2, 3, 4, 5, 6, 0xab];
    let mut reader = BinaryReader::new(&bytes);
    let text = read_guid(&mut reader).unwrap();
    assert_eq!(text, "01a0000f-0002-eeff-0001-0203040506ab");
    let mut writer = AinbWriter::new();
    writer.write_guid(&text).unwrap();
    assert_eq!(writer.into_inner(), bytes);
}

#[test]
fn preloaded_strings_keep_their_first_offsets() {
    let w = AinbWriter::with_strings(&["foo".to_string(), "hello".to_string(), "foo".to_string()]);
    assert_eq!(w.position(), 0);
    assert_eq!(w.string_offset("foo").unwrap(), 0);
    assert_eq!(w.string_offset("hello").unwrap(), 4);
    assert!(w.string_offset("bar").is_err());
}

#[test]
fn canonical_flags_survive_a_raw_round_trip() {
    let flags = [
        ParamFlags {
            names: vec!["Uses Default".to_string(), "Is Output".to_string()],
            expression_index: Some(7),
            blackboard_index: None,
            vector_component: None,
        },
        ParamFlags {
            names: vec!["Is Output".to_string()],
            expression_index: None,
            blackboard_index: Some(0x1234),
            vector_component: Some("Z".to_string()),
        },
        ParamFlags { names: Vec::new(), expression_index: None, blackboard_index: None, vector_component: None },
    ];
    for f in flags {
        let back = ParamFlags::from_raw(f.to_raw().unwrap());
        assert_eq!(back.names, f.names);
        assert_eq!(back.expression_index, f.expression_index);
        assert_eq!(back.blackboard_index, f.blackboard_index);
        assert_eq!(back.vector_component, f.vector_component);
    }
}

fn words(values: &[u32]) -> Vec<u8> {
    values.iter().flat_map(|v| v.to_le_bytes()).collect()
}

#[test]
fn property_sets_group_records_by_type_name() {
    let mut data = words(&[24, 36, 36, 36, 48, 48]);
    data.extend(words(&[0, 0x0080_0000, (-5i32) as u32]));
    data.extend(words(&[2, 0, 10]));
    data.extend(words(&[4, 6, 0]));
    assert_eq!(data.len(), 60);
    data.extend_from_slice(b"a\0b\0c\0cls\0str\0");
    let mut r = BinaryReader::new(&data);
    let set = read_property_set(&mut r, 60, 60).unwrap();
    assert_eq!(r.position(), 60);
    let names: Vec<&str> = set.iter().map(|(n, _)| n.as_str()).collect();
    assert_eq!(names, vec!["Int", "Pointer", "String"]);
    let int = &set[0].1[0];
    assert_eq!(int.name, "a");
    assert!(matches!(int.default_value, AinbValue::Int(-5)));
    assert_eq!(int.flags.names, vec!["Uses Default".to_string()]);
    let pointer = &set[1].1[0];
    assert_eq!((pointer.name.as_str(), pointer.classname.as_deref()), ("c", Some("cls")));
    assert!(matches!(pointer.default_value, AinbValue::Null));
    assert!(matches!(&set[2].1[0].default_value, AinbValue::String(s) if s == "str"));

    let mut bad = data.clone();
    bad[4..8].copy_from_slice(&20u32.to_le_bytes());
    let mut r = BinaryReader::new(&bad);
    assert_eq!(read_property_set(&mut r, 60, 60).unwrap_err().kind, ErrorKind::InvalidData);
}

fn source(node_index: i16, output_index: i16) -> ParamSource {
    ParamSource {
        node_index,
        output_index,
        flags: ParamFlags { names: Vec::new(), expression_index: None, blackboard_index: None, vector_component: None },
    }
}

#[test]
fn parameter_sets_resolve_multi_sources_and_blackboard_targets() {
    let multi = vec![source(0, 0), source(1, 1), source(2, 2), source(3, 3)];
    let mut data = words(&[48, 80, 84, 84, 84, 84, 84, 84, 84, 84, 84, 84]);
    data.extend(words(&[0, (0xff9a_u32) | (2 << 16), 0, 7]));
    data.extend(words(&[0, 3 | (0x8002 << 16), 0, 0]));
    data.extend(words(&[3 | 0x8000_0000]));
    assert_eq!(data.len(), 84);
    data.extend_from_slice(b"in\0out\0");
    let mut r = BinaryReader::new(&data);
    let set = read_param_set(&mut r, 84, 84, &multi).unwrap();
    assert_eq!(set.inputs.len(), 1);
    assert_eq!(set.inputs[0].0, "Int");
    let first = &set.inputs[0].1[0];
    assert_eq!(first.name, "in");
    assert!(matches!(first.default_value, AinbValue::Int(7)));
    let runs = first.sources.as_ref().unwrap();
    assert_eq!(runs.iter().map(|s| s.node_index).collect::<Vec<_>>(), vec![2, 3]);
    assert!(first.source.is_none());
    let second = &set.inputs[0].1[1];
    assert!(second.is_set_blackboard);
    let target = second.source.as_ref().unwrap();
    assert_eq!((target.node_index, target.output_index), (3, 2));
    assert_eq!(set.outputs[0].0, "Int");
    assert!(set.outputs[0].1[0].is_output);
    assert_eq!(set.outputs[0].1[0].name, "out");

    let short = vec![source(0, 0)];
    let mut r = BinaryReader::new(&data);
    assert_eq!(read_param_set(&mut r, 84, 84, &short).unwrap_err().kind, ErrorKind::InvalidData);
}

fn property(name: &str, value: AinbValue) -> Property {
    Property {
        name: name.to_string(),
        classname: None,
        default_value: value,
        flags: ParamFlags { names: Vec::new(), expression_index: None, blackboard_index: None, vector_component: None },
    }
}

#[test]
fn attachments_select_ranges_of_the_property_table() {
    let table = vec![
        ("Int".to_string(), vec![property("a", AinbValue::Int(1)), property("b", AinbValue::Int(2))]),
        ("String".to_string(), vec![property("c", AinbValue::String("s".to_string()))]),
    ];
    let mut data = words(&[0, 16, 0, 0]);
    data.extend(words(&[9, 1, 1, 0, 0, 0, 0, 0, 1, 0, 0, 0, 0]));
    assert_eq!(data.len(), 68);
    data.extend_from_slice(b"att\0");
    let mut r = BinaryReader::new(&data);
    let a = Attachment::read(&mut r, 68, 0x404, &table).unwrap();
    assert_eq!(r.position(), 12);
    assert_eq!((a.name.as_str(), a.debug), ("att", 9));
    let names: Vec<&str> = a.properties.iter().map(|(n, _)| n.as_str()).collect();
    assert_eq!(names, vec!["Int", "String"]);
    assert_eq!(a.properties[0].1.len(), 1);
    assert_eq!(a.properties[0].1[0].name, "b");
    assert_eq!(a.properties[1].1[0].name, "c");

    let mut bad = data.clone();
    bad[24..28].copy_from_slice(&2u32.to_le_bytes());
    let mut r = BinaryReader::new(&bad);
    assert_eq!(Attachment::read(&mut r, 68, 0x404, &table).unwrap_err().kind, ErrorKind::InvalidData);
}
