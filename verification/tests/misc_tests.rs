use asset_parsers::ainb::writer::{decode_hex, transition_binary_size, Transition};
use asset_parsers::amta::document::{alignment, explicit_name, hex_preview, printable_string_at, strings};
use asset_parsers::asb::node_type::NodeType;
use asset_parsers::bphcl::aamp::AampSection;
use asset_parsers::bphcl::varuint::varuint;
use asset_parsers::error::ErrorKind;
use asset_parsers::evfl::relocation::is_relocated_pointer;
use asset_parsers::aoc::g1m::records::{G1mMaterial, G1mTextureSlot};
use asset_parsers::fbx::export::{material_texture_slots, TextureExportFormat};

#[test]
fn decodes_hex_tails() {
    assert_eq!(decode_hex("00ff10").unwrap(), vec![0, 255, 16]);
    assert_eq!(decode_hex("+a0B").unwrap(), vec![10, 11]);
    assert_eq!(decode_hex("").unwrap(), Vec::<u8>::new());
    assert!(decode_hex("abc").is_err());
    assert!(decode_hex("zz").is_err());
}

#[test]
fn transitions_take_offsets_and_bodies() {
    let t = |kind: u32| Transition { transition_type: kind, update_post_calc: false, command_name: String::new() };
    assert_eq!(transition_binary_size(&[t(0), t(1), t(0)]), 12 + 8 + 4 + 8);
    assert_eq!(transition_binary_size(&[]), 0);
}

#[test]
fn amta_strings_and_names() {
    let data = b"\0\0AB\0x\0hello\0\x01\x02abc";
    let found = strings(data, 0, data.len());
    let values: Vec<(usize, String)> = found.iter().map(|s| (s.offset, s.value.clone())).collect();
    assert_eq!(values, vec![(2, "AB".to_owned()), (7, "hello".to_owned())]);
    assert_eq!(printable_string_at(data, 7, data.len()), Some("hello".to_owned()));
    assert_eq!(printable_string_at(data, 0, data.len()), None);
    assert_eq!(printable_string_at(data, 13, data.len()), None);
    assert_eq!(explicit_name(data, data.len(), 4, Some(0)), Some("ello".to_owned()));
    assert_eq!(explicit_name(data, data.len(), 3, Some(usize::MAX)), None);
    let mut named = vec![0u8; 0x30];
    named[0x2c..0x30].copy_from_slice(b"Name");
    assert_eq!(explicit_name(&named, named.len(), 5, Some(8)), Some("Name".to_owned()));
}

#[test]
fn amta_alignment_and_preview() {
    assert_eq!(alignment(0), 0);
    assert_eq!(alignment(0x30), 0x10);
    assert_eq!(alignment(0x10000), 0x1000);
    assert_eq!(alignment(7), 1);
    assert_eq!(hex_preview(&[0x00, 0xab, 0x1f], 64), "00 AB 1F");
    assert_eq!(hex_preview(&[1, 2, 3], 2), "01 02");
    assert_eq!(hex_preview(&[], 4), "");
}

#[test]
fn aamp_sections_are_checked() {
    let mut data = vec![0u8; 16];
    data[4..8].copy_from_slice(b"AAMP");
    assert!(AampSection::read(&data, 4, 0).unwrap().is_none());
    let section = AampSection::read(&data, 4, 8).unwrap().unwrap();
    assert_eq!((section.offset, section.size), (4, 8));
    assert_eq!(&section.raw[..4], b"AAMP");
    assert!(AampSection::read(&data, 0, 8).is_err());
    assert!(AampSection::read(&data, 12, 8).is_err());
}

#[test]
fn tagfile_integers_decode() {
    let data = [0x05u8, 0x81, 0x02, 0xc1, 0x02, 0x03, 0xf1, 1, 2, 3, 4, 5, 6, 7, 0xff];
    let mut p = 0;
    assert_eq!(varuint(&data, &mut p, data.len()).unwrap(), 5);
    assert_eq!(p, 1);
    assert_eq!(varuint(&data, &mut p, data.len()).unwrap(), 0x102);
    assert_eq!(p, 3);
    assert_eq!(varuint(&data, &mut p, data.len()).unwrap(), 0x1_0203);
    assert_eq!(p, 6);
    assert_eq!(varuint(&data, &mut p, data.len()).unwrap(), 0x0101_0203_0405_0607);
    assert_eq!(p, 14);
    assert!(varuint(&data, &mut p, data.len()).is_err());
    let mut q = 1;
    assert!(varuint(&data, &mut q, 2).is_err());
}

fn relocation_table(entries: &[(u32, u32)], declared: u32) -> Vec<u8> {
    let mut data = vec![0u8; 72];
    data[24..28].copy_from_slice(&32u32.to_le_bytes());
    data[68..72].copy_from_slice(&declared.to_le_bytes());
    for (base, flags) in entries {
        data.extend_from_slice(&base.to_le_bytes());
        data.extend_from_slice(&flags.to_le_bytes());
    }
    data
}

#[test]
fn relocated_pointers_follow_entry_flags() {
    let data = relocation_table(&[(0x100, 0b101), (0x300, 1 << 3)], 2);
    assert_eq!(is_relocated_pointer(&data, 0x100).unwrap(), true);
    assert_eq!(is_relocated_pointer(&data, 0x108).unwrap(), false);
    assert_eq!(is_relocated_pointer(&data, 0x110).unwrap(), true);
    assert_eq!(is_relocated_pointer(&data, 0x104).unwrap(), false);
    assert_eq!(is_relocated_pointer(&data, 0x318).unwrap(), true);
    assert_eq!(is_relocated_pointer(&data, 0x320).unwrap(), false);
    assert_eq!(is_relocated_pointer(&data, 0x50).unwrap(), false);
}

#[test]
fn truncated_relocation_tables_are_errors() {
    let data = relocation_table(&[(0x100, 1)], 2);
    assert_eq!(is_relocated_pointer(&data, 0x100).unwrap_err().kind, ErrorKind::UnexpectedEof);
    assert_eq!(is_relocated_pointer(&data[..20], 0).unwrap_err().kind, ErrorKind::UnexpectedEof);
    let empty = relocation_table(&[], 0);
    assert_eq!(is_relocated_pointer(&empty, 0x100).unwrap(), false);
}

#[test]
fn texture_export_formats_ignore_case() {
    assert_eq!(TextureExportFormat::parse("none").unwrap(), TextureExportFormat::NoTextures);
    assert_eq!(TextureExportFormat::parse("PNG").unwrap(), TextureExportFormat::Png);
    assert_eq!(TextureExportFormat::parse("Dds").unwrap(), TextureExportFormat::Dds);
    assert_eq!(TextureExportFormat::parse("tga").unwrap_err().kind, ErrorKind::InvalidInput);
    assert_eq!(TextureExportFormat::parse("").unwrap_err().kind, ErrorKind::InvalidInput);
    assert_eq!(TextureExportFormat::parse("pngs").unwrap_err().kind, ErrorKind::InvalidInput);
}

#[test]
fn exported_materials_link_first_diffuse_and_normal() {
    let slot = |index: usize, kind: &str| G1mTextureSlot {
        index,
        name: index.to_string(),
        uv_layer: 0,
        sampler: String::new(),
        texture_type: kind.to_string(),
    };
    let material = G1mMaterial {
        name: "Material 0".to_string(),
        offset: 0,
        texture_slots: vec![slot(0, "Normal"), slot(1, "Diffuse"), slot(2, "Diffuse")],
    };
    let links = material_texture_slots(&material);
    assert_eq!(links.len(), 2);
    assert_eq!((links[0].0, links[0].1.index), ("DiffuseColor", 1));
    assert_eq!((links[1].0, links[1].1.index), ("NormalMap", 0));
    let plain = G1mMaterial { name: String::new(), offset: 0, texture_slots: vec![slot(0, "Specular")] };
    assert!(material_texture_slots(&plain).is_empty());
}

#[test]
fn node_type_names_turn_back_into_their_types() {
    for code in 1..=25u16 {
        let t = NodeType::from_u16(code).unwrap();
        assert_eq!(NodeType::from_name(t.name()).unwrap(), t);
    }
    assert_eq!(NodeType::from_name("state").unwrap_err().kind, ErrorKind::InvalidData);
    assert_eq!(NodeType::from_name("").unwrap_err().kind, ErrorKind::InvalidData);
}
