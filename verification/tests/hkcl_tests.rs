use asset_parsers::binary::{BinaryWriter, Endian};
use asset_parsers::hkcl::document::HkclDocument;

fn packfile(endian: Endian) -> Vec<u8> {
    let mut writer = BinaryWriter::with_endian(endian);
    writer.write_bytes(&[0x57, 0xe0, 0xe0, 0x57, 0x10, 0xc0, 0xc0, 0x10]);
    writer.write_u32(0);
    writer.write_u32(11);
    writer.write_bytes(&[
        if endian == Endian::Little { 8 } else { 4 },
        if endian == Endian::Little { 1 } else { 0 },
        1,
        1,
    ]);
    writer.write_i32(1);
    writer.write_i32(0);
    writer.write_u32(0);
    writer.write_i32(0);
    writer.write_u32(5);
    let mut version = [0u8; 16];
    let text = b"hk_2014.1.0-r1";
    version[..text.len()].copy_from_slice(text);
    writer.write_bytes(&version);
    writer.write_u32(0);
    writer.write_u16(0);
    writer.write_u16(0);
    let mut tag = [0u8; 20];
    tag[..9].copy_from_slice(b"__data__\0");
    writer.write_bytes(&tag);
    writer.write_u32(0x70);
    writer.write_u32(0x10);
    writer.write_u32(0x10);
    writer.write_u32(0x10);
    writer.write_u32(0x10);
    writer.write_u32(0x10);
    writer.write_u32(0x10);
    writer.write_bytes(b"ROOT\0hkRoot\0\0\0\0\0");
    let bytes = writer.into_inner();
    assert_eq!(bytes.len(), 0x80);
    bytes
}

#[test]
fn parses_little_and_big_endian_packfile_headers() {
    for endian in [Endian::Little, Endian::Big] {
        let document = HkclDocument::parse(&packfile(endian)).unwrap();
        assert_eq!(document.header.layout.endian, endian);
        assert_eq!(document.header.file_version, 11);
        assert_eq!(document.header.contents_version, "hk_2014.1.0-r1");
        assert_eq!(document.contents_offset, Some(0x70));
        assert_eq!(document.contents_class_name.as_deref(), Some("hkRoot"));
        assert_eq!(document.sections[0].data(), 0x70..0x80);
    }
}

#[test]
fn rejects_non_monotonic_section_ranges() {
    let mut bytes = packfile(Endian::Little);
    bytes[0x58..0x5c].copy_from_slice(&0x18u32.to_le_bytes());
    assert!(HkclDocument::parse(&bytes).is_err());
}

#[test]
fn packfile_section_lookup_by_tag() {
    let document = HkclDocument::parse(&packfile(Endian::Little)).unwrap();
    assert_eq!(document.header.section_count, 1);
    assert_eq!(document.sections[0].tag, "__data__");
    assert!(document.section("__data__").is_some());
    assert!(document.section("__types__").is_none());
    assert_eq!(document.contents_class_name_offset, Some(0x75));
}

#[test]
fn packfile_rejects_bad_magic_and_truncation() {
    let mut bytes = packfile(Endian::Big);
    bytes[0] = 0;
    assert!(HkclDocument::parse(&bytes).is_err());
    let bytes = packfile(Endian::Big);
    assert!(HkclDocument::parse(&bytes[..0x3f]).is_err());
    assert!(HkclDocument::parse(&bytes[..0x60]).is_err());
}

#[test]
fn packfile_rejects_offsets_outside_their_section() {
    let mut bytes = packfile(Endian::Little);
    bytes[0x1c..0x20].copy_from_slice(&0x10u32.to_le_bytes());
    assert!(HkclDocument::parse(&bytes).is_err());
    let mut bytes = packfile(Endian::Little);
    bytes[0x18..0x1c].copy_from_slice(&1i32.to_le_bytes());
    assert!(HkclDocument::parse(&bytes).is_err());
    let mut bytes = packfile(Endian::Little);
    bytes[0x18..0x1c].copy_from_slice(&(-1i32).to_le_bytes());
    let document = HkclDocument::parse(&bytes).unwrap();
    assert_eq!(document.contents_offset, None);
}
