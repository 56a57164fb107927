use asset_parsers::asb::node_body::{read_node_body, AsbContext, Children, FieldValue};
use asset_parsers::asb::node_connections::X2cLink;
use asset_parsers::asb::node_type::NodeType;
use asset_parsers::asb::parameter::{AsbParameter, ParamValue};
use asset_parsers::binary::BinaryReader;
use asset_parsers::error::ErrorKind;

fn words(values: &[u32]) -> Vec<u8> {
    values.iter().flat_map(|v| v.to_le_bytes()).collect()
}

fn context(version: u32) -> AsbContext {
    AsbContext { version, event_count: 2, x2c_count: 0, bone_group_names: vec!["Arms".to_string()] }
}

#[test]
fn finishing_bodies_read_child_nodes_and_connections() {
    let mut data = words(&[5]);
    data.extend_from_slice(&[1, 0, 0, 0, 2, 0, 1, 0, 0, 0, 0, 0]);
    data.extend(words(&[40, 44, 48, 52]));
    data.extend(words(&[0, 0]));
    data.extend(words(&[7, 11, 12, 9]));
    assert_eq!(data.len(), 56);
    let pool_bytes = Vec::new();
    let pool = BinaryReader::new(&pool_bytes);
    let mut r = BinaryReader::new(&data);
    let body = read_node_body(&mut r, &pool, NodeType::Simultaneous, &context(0x40f)).unwrap().unwrap();
    assert_eq!(body.fields.len(), 1);
    assert_eq!(body.fields[0].0, "Unknown");
    assert!(matches!(body.fields[0].1, FieldValue::Word(5)));
    assert!(matches!(&body.children, Children::Nodes(v) if v == &vec![11, 12]));
    assert_eq!(body.connections.state_nodes, vec![7]);
    assert_eq!(body.connections.x2c, vec![X2cLink::Legacy(9)]);
    assert!(body.connections.event_nodes.is_empty() && body.connections.frame_nodes.is_empty());
}

#[test]
fn selector_children_name_their_default_condition() {
    let mut data = words(&[0, 3, 0, 1, 1]);
    data.extend_from_slice(&[0, 0, 0, 0, 2, 0, 1, 0, 0, 0, 0, 0]);
    data.extend(words(&[48, 60, 72]));
    data.extend(words(&[0]));
    data.extend(words(&[0, 10, 100, 0, 20, 200, u32::MAX, 5]));
    assert_eq!(data.len(), 80);
    let pool_bytes = Vec::new();
    let pool = BinaryReader::new(&pool_bytes);
    let mut r = BinaryReader::new(&data);
    let body = read_node_body(&mut r, &pool, NodeType::IntSelector, &context(0x417)).unwrap().unwrap();
    let keys: Vec<&str> = body.fields.iter().map(|(k, _)| k.as_str()).collect();
    assert_eq!(keys, vec!["Parameter", "Unknown 1", "Unknown 2"]);
    assert!(matches!(body.fields[0].1, FieldValue::Param(AsbParameter::Value(ParamValue::Int(3)))));
    assert!(matches!(body.fields[2].1, FieldValue::Flag(true)));
    let Children::Records(records) = &body.children else { panic!("expected child records") };
    assert_eq!(records.len(), 2);
    assert_eq!(records[0][0].0, "Condition");
    assert!(matches!(records[0][0].1, FieldValue::Param(AsbParameter::Value(ParamValue::Int(10)))));
    assert_eq!(records[1][0].0, "Default Condition");
    assert!(matches!(records[1][1].1, FieldValue::Word(200)));
    assert_eq!(body.connections.x2c, vec![X2cLink::Modern { entry: None, node_index: 5 }]);
}

#[test]
fn node_bodies_check_their_table_indices() {
    let mut data = words(&[3]);
    data.extend_from_slice(&[0; 12]);
    let pool_bytes = Vec::new();
    let pool = BinaryReader::new(&pool_bytes);
    let mut r = BinaryReader::new(&data);
    assert_eq!(read_node_body(&mut r, &pool, NodeType::Event, &context(0x40f)).unwrap_err().kind, ErrorKind::InvalidData);
    let mut r = BinaryReader::new(&data);
    assert!(read_node_body(&mut r, &pool, NodeType::Unknown2, &context(0x40f)).unwrap().is_none());
    let mut r = BinaryReader::new(&data[..8]);
    assert_eq!(read_node_body(&mut r, &pool, NodeType::State, &context(0x40f)).unwrap_err().kind, ErrorKind::UnexpectedEof);
}
