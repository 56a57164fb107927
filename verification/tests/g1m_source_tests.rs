use asset_parsers::aoc::g1m::kidsobj::parse_kidsobj;
use asset_parsers::aoc::g1m::rebuild::{build_attribute_section, rebuild_g1mf, section, source_layout};
use asset_parsers::aoc::g1m::source::parse_geometry;
use asset_parsers::aoc::g1m::validate::{validate_and_order, ImportedFbx, ImportedMesh, ModelBone, ModelSkeleton};
use asset_parsers::binary::Endian;
use asset_parsers::error::ErrorKind;

fn word(out: &mut Vec<u8>, v: u32) {
    out.extend_from_slice(&v.to_le_bytes());
}

fn half(out: &mut Vec<u8>, v: u16) {
    out.extend_from_slice(&v.to_le_bytes());
}

fn source_chunk() -> Vec<u8> {
    let mut g = Vec::new();
    g.extend_from_slice(b"GM1G");
    word(&mut g, 0x3030_3430);
    word(&mut g, 0);
    g.extend_from_slice(b"NX  ");
    word(&mut g, 0x55);
    g.extend_from_slice(&[0u8; 24]);
    word(&mut g, 7);
    // an unread kind
    word(&mut g, 0x0001_0001);
    word(&mut g, 16);
    word(&mut g, 7);
    word(&mut g, 0xdead_beef);
    // two vertex buffers
    word(&mut g, 0x0001_0004);
    word(&mut g, 12 + 12 + 16 + 12 + 8);
    word(&mut g, 2);
    word(&mut g, 5);
    word(&mut g, 8);
    word(&mut g, 2);
    g.extend_from_slice(&[9u8; 16]);
    word(&mut g, 6);
    word(&mut g, 4);
    word(&mut g, 2);
    g.extend_from_slice(&[1, 2, 3, 4, 5, 6, 7, 8]);
    // two vertex layouts
    word(&mut g, 0x0001_0005);
    word(&mut g, 12 + (4 + 8 + 4 + 16) + (4 + 4 + 4 + 8));
    word(&mut g, 2);
    word(&mut g, 2);
    word(&mut g, 0);
    word(&mut g, 1);
    word(&mut g, 2);
    half(&mut g, 0);
    half(&mut g, 0);
    g.extend_from_slice(&[2, 0, 0, 0]);
    half(&mut g, 1);
    half(&mut g, 0);
    g.extend_from_slice(&[3, 1, 3, 1]);
    word(&mut g, 1);
    word(&mut g, 1);
    word(&mut g, 1);
    half(&mut g, 0);
    half(&mut g, 4);
    g.extend_from_slice(&[5, 0, 5, 0]);
    // one bone palette of one joint
    word(&mut g, 0x0001_0006);
    word(&mut g, 12 + 4 + 12);
    word(&mut g, 1);
    word(&mut g, 1);
    word(&mut g, 10);
    word(&mut g, 11);
    word(&mut g, 0x8000_0003);
    // one index buffer of three 16-bit indices, padded
    word(&mut g, 0x0001_0007);
    word(&mut g, 12 + 8 + 8);
    word(&mut g, 1);
    word(&mut g, 3);
    word(&mut g, 16);
    g.extend_from_slice(&[0, 0, 1, 0, 2, 0, 0, 0]);
    // two submeshes, using layouts 0 and 1
    word(&mut g, 0x0001_0008);
    word(&mut g, 12 + 56 * 2);
    word(&mut g, 2);
    for layout in [0u32, 1] {
        for i in 0..14u32 {
            word(&mut g, if i == 1 { layout } else { 100 + i });
        }
    }
    // two visibility groups; only the first one's entries count
    word(&mut g, 0x0001_0009);
    word(&mut g, 12 + (20 + 32 + 36) + (20 + 32));
    word(&mut g, 2);
    g.extend_from_slice(&[0u8; 12]);
    word(&mut g, 1);
    word(&mut g, 1);
    for (cloth, indices) in [(0u16, vec![0u32]), (5u16, vec![1, 4])] {
        g.extend_from_slice(&[0u8; 16]);
        half(&mut g, cloth);
        g.extend_from_slice(&[0u8; 6]);
        word(&mut g, indices.len() as u32);
        for i in indices {
            word(&mut g, i);
        }
    }
    g.extend_from_slice(&[0u8; 12]);
    word(&mut g, 1);
    word(&mut g, 0);
    g.extend_from_slice(&[0u8; 16]);
    half(&mut g, 3);
    g.extend_from_slice(&[0u8; 6]);
    word(&mut g, 0);
    word(&mut g, 0);
    let size = g.len() as u32;
    g[8..12].copy_from_slice(&size.to_le_bytes());
    g
}

#[test]
fn source_geometry_keeps_records_and_data() {
    let chunk = source_chunk();
    let g = parse_geometry(&chunk, Endian::Little).unwrap();
    assert_eq!(&g.signature, b"GM1G");
    assert_eq!(g.version, 0x3030_3430);
    assert_eq!(&g.platform, b"NX  ");
    assert_eq!(g.reserved, 0x55);
    assert_eq!(g.sections.len(), 7);
    assert_eq!((g.sections[0].kind, g.sections[0].count, g.sections[0].bytes.len()), (0x0001_0001, 7, 16));
    assert_eq!(g.vertex_buffers.len(), 2);
    assert_eq!(g.vertex_buffers[0].unknown1, 5);
    assert_eq!(g.vertex_buffers[0].unknown2, None);
    assert_eq!(g.vertex_buffers[0].stride, 8);
    assert_eq!(g.vertex_buffers[0].data, vec![9u8; 16]);
    assert_eq!(g.vertex_buffers[1].data, vec![1, 2, 3, 4, 5, 6, 7, 8]);
    assert_eq!(g.attrs.len(), 2);
    assert_eq!(g.attrs[0].buffers, vec![0, 1]);
    assert_eq!(g.attrs[0].attrs[1].dummy, 1);
    assert_eq!(g.attrs[0].attrs[1].semantic, 3);
    assert_eq!(g.palettes.len(), 1);
    assert_eq!(g.palettes[0].raw, vec![[10, 11, 0x8000_0003]]);
    assert_eq!(g.palettes[0].joints, vec![3]);
    assert_eq!(g.index_buffers.len(), 1);
    assert_eq!((g.index_buffers[0].bits, g.index_buffers[0].count), (16, 3));
    assert_eq!(g.index_buffers[0].data, vec![0, 0, 1, 0, 2, 0]);
    assert_eq!(g.submeshes.len(), 2);
    assert_eq!(g.submeshes[1].values[1], 1);
    assert_eq!(g.submeshes[1].values[13], 113);
    let mut visible: Vec<usize> = g.visible_submeshes.iter().copied().collect();
    visible.sort();
    assert_eq!(visible, vec![0, 1, 4]);
    let mut cloth: Vec<usize> = g.cloth_submeshes.iter().copied().collect();
    cloth.sort();
    assert_eq!(cloth, vec![1, 4]);
}

#[test]
fn source_geometry_rejects_truncation() {
    let chunk = source_chunk();
    assert!(parse_geometry(&chunk[..40], Endian::Little).is_err());
    assert!(parse_geometry(&chunk[..chunk.len() - 4], Endian::Little).is_err());
    let mut big = chunk.clone();
    big[8..12].copy_from_slice(&10_000u32.to_le_bytes());
    assert!(parse_geometry(&big, Endian::Little).is_err());
}

#[test]
fn layouts_flatten_into_one_buffer() {
    let chunk = source_chunk();
    let g = parse_geometry(&chunk, Endian::Little).unwrap();
    let (attrs, stride) = source_layout(&g, 0).unwrap();
    assert_eq!(stride, 12);
    assert_eq!(attrs.len(), 2);
    assert_eq!((attrs[0].buffer, attrs[0].offset, attrs[0].kind), (0, 0, 2));
    assert_eq!((attrs[1].buffer, attrs[1].offset, attrs[1].kind, attrs[1].layer), (0, 8, 3, 1));
    let (attrs, stride) = source_layout(&g, 1).unwrap();
    assert_eq!((stride, attrs[0].offset), (4, 4));
    assert!(source_layout(&g, 2).is_err());
}

#[test]
fn attribute_sections_list_each_buffer_layout() {
    let chunk = source_chunk();
    let g = parse_geometry(&chunk, Endian::Little).unwrap();
    let bytes = build_attribute_section(&g, Endian::Little).unwrap();
    let mut body = Vec::new();
    for v in [1u32, 0, 2] {
        word(&mut body, v);
    }
    half(&mut body, 0);
    half(&mut body, 0);
    body.extend_from_slice(&[2, 0, 0, 0]);
    half(&mut body, 0);
    half(&mut body, 8);
    body.extend_from_slice(&[3, 1, 3, 1]);
    for v in [1u32, 1, 1] {
        word(&mut body, v);
    }
    half(&mut body, 0);
    half(&mut body, 4);
    body.extend_from_slice(&[5, 0, 5, 0]);
    let expected = section(0x0001_0005, 2, body, Endian::Little).unwrap();
    assert_eq!(bytes, expected);
    assert_eq!(&expected[0..4], &0x0001_0005u32.to_le_bytes());
    assert_eq!(&expected[4..8], &((expected.len()) as u32).to_le_bytes());
    assert_eq!(&expected[8..12], &2u32.to_le_bytes());
}

#[test]
fn g1mf_counters_follow_the_new_geometry() {
    let chunk = source_chunk();
    let g = parse_geometry(&chunk, Endian::Little).unwrap();
    let old: Vec<u8> = (0..100u32).map(|i| i as u8).collect();
    let out = rebuild_g1mf(Some(&old), &g, &chunk, Endian::Little).unwrap();
    let word_at = |p: usize| u32::from_le_bytes([out[p], out[p + 1], out[p + 2], out[p + 3]]);
    let old_word = |p: usize| u32::from_le_bytes([old[p], old[p + 1], old[p + 2], old[p + 3]]);
    let expected = [
        7,
        0,
        0,
        old_word(40),
        old_word(44),
        old_word(48),
        2,
        2,
        3,
        1,
        1,
        1,
        2,
        2,
        2,
        old_word(88),
        old_word(92),
    ];
    for (i, v) in expected.iter().enumerate() {
        assert_eq!(word_at(28 + 4 * i), *v, "counter {i}");
    }
    assert_eq!(word_at(8), 100);
    assert_eq!(&out[0..8], &old[0..8]);
    assert_eq!(&out[12..28], &old[12..28]);
    assert_eq!(&out[96..], &old[96..]);
    assert!(rebuild_g1mf(None, &g, &chunk, Endian::Little).unwrap().is_empty());
    assert!(rebuild_g1mf(Some(&old[..95]), &g, &chunk, Endian::Little).is_err());
}

fn kidsobj_entry(out: &mut Vec<u8>, signature: u32, hash: u32, columns: &[u32], values: &[u32]) {
    word(out, signature);
    out.extend_from_slice(&[0u8; 8]);
    word(out, hash);
    word(out, 0);
    word(out, columns.len() as u32);
    for rows in columns {
        word(out, 0);
        word(out, *rows);
        word(out, 0);
    }
    for v in values {
        word(out, *v);
    }
}

#[test]
fn kidsobj_maps_objects_to_first_textures() {
    let mut d = Vec::new();
    word(&mut d, 0x4b4f_445f);
    d.extend_from_slice(&[0u8; 12]);
    word(&mut d, 3);
    d.extend_from_slice(&[0u8; 8]);
    kidsobj_entry(&mut d, 0x4b4f_4449, 0xaabb_ccdd, &[1, 2], &[0, 0x1234, 0x5678]);
    kidsobj_entry(&mut d, 0x1111_1111, 1, &[1], &[9]);
    kidsobj_entry(&mut d, 0x4b4f_4449, 2, &[1], &[0]);
    let pairs = parse_kidsobj(&d).unwrap();
    assert_eq!(pairs, vec![("aabbccdd".to_string(), "00001234".to_string())]);
    assert!(parse_kidsobj(&d[..d.len() - 1]).is_err());
    let mut bad = d.clone();
    bad[0] = 0;
    assert_eq!(parse_kidsobj(&bad).unwrap_err().kind, ErrorKind::InvalidData);
}

fn imported_mesh(name: &str, material: &str, vertices: usize, normals: usize, uv_maps: usize) -> ImportedMesh {
    ImportedMesh {
        name: name.to_string(),
        material: material.to_string(),
        positions: vec![[0, 0, 0]; vertices],
        normals: vec![[0, 0, 0]; normals],
        tangents: Vec::new(),
        uv_maps: vec![vec![[0, 0]; vertices]; uv_maps],
        colors: Vec::new(),
        bone_indices: vec![[1, 2, 0, 0, 0, 0, 0, 0]; vertices],
        bone_weights: Vec::new(),
        palette_bones: vec![2, 1],
        source_vertices: Vec::new(),
        indices: Vec::new(),
    }
}

fn skeleton() -> ModelSkeleton {
    ModelSkeleton {
        mesh_count: 2,
        bones: vec![
            ModelBone { name: "Root".to_string(), parent_index: -1 },
            ModelBone { name: "Arm".to_string(), parent_index: 0 },
        ],
        global_to_local_bones: vec![0, 1],
    }
}

fn fbx(first_material: &str) -> ImportedFbx {
    ImportedFbx {
        meshes: vec![imported_mesh("Mesh 1", first_material, 2, 0, 1), imported_mesh("0.vb", "MATERIAL 106", 1, 1, 0)],
        bones: vec![
            ("Root".to_string(), None),
            ("Arm".to_string(), Some("Root".to_string())),
            ("Arm_end".to_string(), Some("Arm".to_string())),
        ],
    }
}

#[test]
fn replacement_meshes_are_ordered_by_slot_and_remapped() {
    let chunk = source_chunk();
    let g = parse_geometry(&chunk, Endian::Little).unwrap();
    let globals = vec![Some(0), Some(1), None];
    let mut imported = fbx("model_106");
    validate_and_order(&skeleton(), &g, &mut imported, &globals, "model").unwrap();
    assert_eq!(imported.meshes[0].name, "0.vb");
    assert_eq!(imported.meshes[1].name, "Mesh 1");
    assert_eq!(imported.meshes[1].bone_indices[0], [1, 0, 0, 0, 0, 0, 0, 0]);
    assert_eq!(imported.meshes[1].palette_bones, vec![0, 1]);
}

#[test]
fn replacement_checks_keep_what_the_original_keeps() {
    let chunk = source_chunk();
    let g = parse_geometry(&chunk, Endian::Little).unwrap();
    let mut imported = fbx("other");
    let err = validate_and_order(&skeleton(), &g, &mut imported, &vec![Some(0), Some(1), None], "model").unwrap_err();
    assert_eq!(err.kind, ErrorKind::InvalidData);
    assert!(imported.meshes.is_empty());
    let mut imported = fbx("model_106");
    assert!(validate_and_order(&skeleton(), &g, &mut imported, &vec![Some(0), Some(7), None], "model").is_err());
    assert_eq!(imported.meshes.len(), 2);
    assert_eq!(imported.meshes[0].name, "Mesh 1");
    let mut imported = fbx("model_106");
    imported.meshes[1].normals.clear();
    assert!(validate_and_order(&skeleton(), &g, &mut imported, &vec![Some(0), Some(1), None], "model").is_err());
    assert_eq!(imported.meshes[0].name, "0.vb");
    assert_eq!(imported.meshes[1].palette_bones, vec![2, 1]);
}
