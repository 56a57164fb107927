use asset_parsers::aoc::g1m::replace::{g1m_endian, mesh_index, parse_chunks, push_u16, push_u32, put_u32};
use asset_parsers::aoc::g1m::container::G1mContainer;
use asset_parsers::aoc::g1m::names::display_name;
use asset_parsers::error::ErrorKind;
use asset_parsers::aoc::g1m::sections::parse_geometry;
use asset_parsers::aoc::g1m::textures::{classify_texture, parse_ktid, strip_to_triangles};
use asset_parsers::binary::Endian;

#[test]
fn strips_become_triangle_lists_without_degenerates() {
    assert_eq!(strip_to_triangles(&[0, 1, 2, 3]), vec![0, 1, 2, 1, 3, 2]);
    assert_eq!(strip_to_triangles(&[0, 1, 1, 2, 3]), vec![1, 2, 3]);
    assert!(strip_to_triangles(&[0, 1]).is_empty());
    assert!(strip_to_triangles(&[]).is_empty());
}

#[test]
fn texture_kinds_are_classified() {
    assert_eq!(classify_texture(1, 9), ("_a0".to_owned(), "Diffuse".to_owned()));
    assert_eq!(classify_texture(19, 0), ("_e0".to_owned(), "Emission".to_owned()));
    assert_eq!(classify_texture(19, 1), (String::new(), "Unknown".to_owned()));
    assert_eq!(classify_texture(66, 66), ("_s0".to_owned(), "Specular".to_owned()));
}

#[test]
fn ktid_hashes_are_lowercase_hex() {
    let mut data = Vec::new();
    data.extend_from_slice(&7u32.to_le_bytes());
    data.extend_from_slice(&0x0000_ab12u32.to_le_bytes());
    let pairs = parse_ktid(&data).unwrap();
    assert_eq!(pairs, vec![(7, "0000ab12".to_owned())]);
    assert!(parse_ktid(&data[..7]).is_err());
}

fn word(out: &mut Vec<u8>, v: u32) {
    out.extend_from_slice(&v.to_le_bytes());
}

/// A G1MG chunk with one material, one vertex buffer, one palette, one index buffer
/// and one submesh.
fn geometry_chunk() -> Vec<u8> {
    let mut g = Vec::new();
    g.extend_from_slice(b"GM1G");
    word(&mut g, 0x3030_3430);
    word(&mut g, 0);
    g.extend_from_slice(&[0u8; 32]);
    word(&mut g, 5);
    // materials: one material with two slots
    let s = g.len();
    word(&mut g, 0x0001_0002);
    word(&mut g, 12 + 16 + 24);
    word(&mut g, 1);
    word(&mut g, 0);
    word(&mut g, 2);
    word(&mut g, 0);
    word(&mut g, 0);
    for (id, layer, kind, sub) in [(5u16, 0u16, 1u16, 0u16), (17, 1, 3, 0)] {
        g.extend_from_slice(&id.to_le_bytes());
        g.extend_from_slice(&layer.to_le_bytes());
        g.extend_from_slice(&kind.to_le_bytes());
        g.extend_from_slice(&sub.to_le_bytes());
        word(&mut g, 0);
    }
    assert_eq!(g.len() - s, 52);
    // vertex buffers: stride 8, two vertices
    word(&mut g, 0x0001_0004);
    word(&mut g, 12 + 12 + 16);
    word(&mut g, 1);
    word(&mut g, 0);
    word(&mut g, 8);
    word(&mut g, 2);
    g.extend_from_slice(&[9u8; 16]);
    // palettes: one joint
    word(&mut g, 0x0001_0006);
    word(&mut g, 12 + 4 + 12);
    word(&mut g, 1);
    word(&mut g, 1);
    word(&mut g, 0);
    word(&mut g, 0);
    word(&mut g, 0x8000_0003);
    // index buffers: three 16-bit indices, padded
    word(&mut g, 0x0001_0007);
    word(&mut g, 12 + 8 + 8);
    word(&mut g, 1);
    word(&mut g, 3);
    word(&mut g, 16);
    g.extend_from_slice(&[0, 0, 1, 0, 2, 0, 0, 0]);
    // submeshes
    word(&mut g, 0x0001_0008);
    word(&mut g, 12 + 56);
    word(&mut g, 1);
    for v in [0u32, 0, 0, 7, 0, 0, 1, 0, 0, 3, 0, 0, 0, 3] {
        word(&mut g, v);
    }
    let size = g.len() as u32;
    g[8..12].copy_from_slice(&size.to_le_bytes());
    g
}

#[test]
fn reads_geometry_sections() {
    let chunk = geometry_chunk();
    let geometry = parse_geometry(&chunk, Endian::Little, 100).unwrap();
    assert_eq!(geometry.materials.len(), 1);
    let material = &geometry.materials[0];
    assert_eq!(material.name, "Material 0");
    assert_eq!(material.offset, 48);
    assert_eq!(material.texture_slots.len(), 2);
    assert_eq!(material.texture_slots[1].name, "17");
    assert_eq!(material.texture_slots[1].uv_layer, 1);
    assert_eq!(material.texture_slots[1].texture_type, "Normal");
    assert_eq!(material.texture_slots[0].sampler, "_a0");
    assert_eq!(geometry.vertex_buffers.len(), 1);
    let vb = geometry.vertex_buffers[0];
    assert_eq!((vb.stride, vb.count), (8, 2));
    assert_eq!(vb.offset, 100 + 124);
    assert_eq!(geometry.palettes, vec![vec![3]]);
    assert_eq!(geometry.index_buffers.len(), 1);
    assert_eq!((geometry.index_buffers[0].count, geometry.index_buffers[0].stride), (3, 2));
    assert_eq!(geometry.submeshes.len(), 1);
    assert_eq!(geometry.submeshes[0].bone_index, 7);
    assert_eq!(geometry.submeshes[0].material, 1);
    assert_eq!(geometry.submeshes[0].primitive, 3);
    assert_eq!(geometry.submeshes[0].index_count, 3);
    assert!(geometry.visible_submeshes.is_none());
}

#[test]
fn rejects_truncated_geometry() {
    let chunk = geometry_chunk();
    assert!(parse_geometry(&chunk[..chunk.len() - 1], Endian::Little, 0).is_err());
    assert!(parse_geometry(&chunk[..40], Endian::Little, 0).is_err());
}

#[test]
fn reads_model_chunks() {
    let chunk = geometry_chunk();
    let mut model = Vec::new();
    model.extend_from_slice(b"_M1G");
    model.extend_from_slice(b"0037");
    word(&mut model, 0);
    word(&mut model, 24);
    word(&mut model, 0);
    word(&mut model, 1);
    model.extend_from_slice(&chunk);
    let total = model.len() as u32;
    model[8..12].copy_from_slice(&total.to_le_bytes());
    let container = G1mContainer::read(&model).unwrap();
    assert_eq!(&container.header.version, b"0037");
    assert_eq!(container.header.endian, "Little");
    assert_eq!(container.sections.len(), 1);
    assert_eq!(&container.sections[0].signature, b"GM1G");
    assert_eq!(container.sections[0].offset, 24);
    assert_eq!(container.geometry.materials.len(), 1);
    assert_eq!(container.format, "G1M");
    assert!(container.name.is_none());
    let table = vec![("038bb045".to_string(), "Amber Earrings".to_string())];
    let named = G1mContainer::parse(&model, "038BB045", &table, &Vec::new()).unwrap();
    assert_eq!(named.name.as_deref(), Some("Amber_Earrings"));
    assert_eq!(named.format, "G1M");
    let mut bad = model.clone();
    bad[0] = b'X';
    assert!(G1mContainer::read(&bad).is_err());
    assert!(matches!(G1mContainer::parse(&bad, "x", &table, &Vec::new()), Err(e) if e.kind == ErrorKind::InvalidData));
    // A second chunk holding a skeleton too short for its header.
    let mut with_skeleton = model.clone();
    with_skeleton[20..24].copy_from_slice(&2u32.to_le_bytes());
    with_skeleton.extend_from_slice(b"G1MS0001");
    word(&mut with_skeleton, 16);
    word(&mut with_skeleton, 0);
    let total = with_skeleton.len() as u32;
    with_skeleton[8..12].copy_from_slice(&total.to_le_bytes());
    assert!(G1mContainer::read(&with_skeleton).is_ok());
    assert!(matches!(G1mContainer::parse(&with_skeleton, "x", &table, &Vec::new()), Err(e) if e.kind == ErrorKind::UnexpectedEof));
    // A skeleton chunk of one joint at offset 28.
    let mut skeletal = model.clone();
    skeletal[20..24].copy_from_slice(&2u32.to_le_bytes());
    skeletal.extend_from_slice(b"G1MS0001");
    for w in [76u32, 28, 0] {
        word(&mut skeletal, w);
    }
    skeletal.extend_from_slice(&1u16.to_le_bytes());
    skeletal.extend_from_slice(&0u16.to_le_bytes());
    word(&mut skeletal, 0);
    for w in [1u32, 2, 3, u32::MAX, 4, 5, 6, 7, 8, 9, 10, 0] {
        word(&mut skeletal, w);
    }
    let total = skeletal.len() as u32;
    skeletal[8..12].copy_from_slice(&total.to_le_bytes());
    let bone_names = vec![(0usize, "Root".to_string())];
    let model_with_bones = G1mContainer::parse(&skeletal, "x", &table, &bone_names).unwrap();
    assert_eq!(model_with_bones.bones.len(), 1);
    let bone = &model_with_bones.bones[0];
    assert_eq!((bone.name.as_str(), bone.parent_index, bone.rotation_mode.as_str()), ("Root", -1, "quaternion"));
    assert_eq!((bone.scale, bone.rotation, bone.translation), ([1, 2, 3], [4, 5, 6, 7], [8, 9, 10]));
    let unnamed = G1mContainer::parse(&skeletal, "x", &table, &Vec::new()).unwrap();
    assert_eq!(unnamed.bones[0].name, "bone_0");
}

#[test]
fn display_names_come_from_the_name_table() {
    let table = vec![
        ("038bb045".to_string(), "Amber Earrings".to_string()),
        ("00000001".to_string(), String::new()),
    ];
    assert_eq!(display_name("038bb045", &table), "Amber_Earrings");
    assert_eq!(display_name("038BB045", &table), "Amber_Earrings");
    assert_eq!(display_name("00000001", &table), "00000001");
    assert_eq!(display_name("ffffffff", &table), "ffffffff");
}

#[test]
fn mesh_names_give_numbers() {
    assert_eq!(mesh_index("12.vb"), Some(12));
    assert_eq!(mesh_index("Mesh 3"), Some(3));
    assert_eq!(mesh_index("7"), Some(7));
    assert_eq!(mesh_index("+5"), Some(5));
    assert_eq!(mesh_index("x"), None);
    assert_eq!(mesh_index("Mesh x"), None);
    assert_eq!(mesh_index(""), None);
}

#[test]
fn replacement_byte_helpers() {
    let mut out = Vec::new();
    push_u16(&mut out, 0x0102, Endian::Big);
    push_u32(&mut out, 0x0a0b_0c0d, Endian::Little);
    assert_eq!(out, vec![1, 2, 0x0d, 0x0c, 0x0b, 0x0a]);
    put_u32(&mut out, 1, 0x1122_3344, Endian::Big).unwrap();
    assert_eq!(out, vec![1, 0x11, 0x22, 0x33, 0x44, 0x0a]);
    assert!(put_u32(&mut out, 3, 0, Endian::Big).is_err());
    assert!(g1m_endian(b"_M1G").unwrap() == Endian::Little);
    assert!(g1m_endian(b"G1M_").unwrap() == Endian::Big);
    assert!(g1m_endian(b"G1M").is_err());
}

#[test]
fn lists_model_chunks() {
    let chunk = geometry_chunk();
    let mut model = Vec::new();
    model.extend_from_slice(b"_M1G");
    model.extend_from_slice(b"0037");
    word(&mut model, 0);
    word(&mut model, 24);
    word(&mut model, 0);
    word(&mut model, 1);
    model.extend_from_slice(&chunk);
    let total = model.len() as u32;
    model[8..12].copy_from_slice(&total.to_le_bytes());
    let chunks = parse_chunks(&model, Endian::Little).unwrap();
    assert_eq!(chunks.len(), 1);
    assert_eq!(&chunks[0].signature, b"GM1G");
    assert_eq!(chunks[0].bytes.len(), chunk.len());
    model[20..24].copy_from_slice(&2u32.to_le_bytes());
    assert!(parse_chunks(&model, Endian::Little).is_err());
}
