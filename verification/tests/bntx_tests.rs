use asset_parsers::bntx::document::BntxFile;

fn put(data: &mut [u8], at: usize, bytes: &[u8]) {
    data[at..at + bytes.len()].copy_from_slice(bytes);
}

/// A one-texture BNTX file laid out as the game's files are.
fn insect_sample() -> Vec<u8> {
    let mut data = vec![0u8; 0x200];
    put(&mut data, 0, b"BNTX");
    put(&mut data, 8, &[0, 0, 4, 0]);
    put(&mut data, 0x1c, &0x200u32.to_le_bytes());
    put(&mut data, 0x20, b"NX  ");
    put(&mut data, 0x24, &1u32.to_le_bytes());
    put(&mut data, 0x28, &0x30u64.to_le_bytes());
    put(&mut data, 0x30, &0x40u64.to_le_bytes());
    let t = 0x40;
    put(&mut data, t, b"BRTI");
    put(&mut data, t + 0x12, &0u16.to_le_bytes());
    put(&mut data, t + 0x14, &0u16.to_le_bytes());
    put(&mut data, t + 0x16, &1u16.to_le_bytes());
    put(&mut data, t + 0x1c, &0x1a01u32.to_le_bytes());
    put(&mut data, t + 0x24, &256u32.to_le_bytes());
    put(&mut data, t + 0x28, &256u32.to_le_bytes());
    put(&mut data, t + 0x2c, &1u32.to_le_bytes());
    put(&mut data, t + 0x30, &1u32.to_le_bytes());
    put(&mut data, t + 0x34, &0x0cu32.to_le_bytes());
    put(&mut data, t + 0x50, &0x100u32.to_le_bytes());
    put(&mut data, t + 0x54, &0x200u32.to_le_bytes());
    put(&mut data, t + 0x58, &[2, 3, 4, 5]);
    put(&mut data, t + 0x60, &0xc0u64.to_le_bytes());
    put(&mut data, t + 0x70, &0xd8u64.to_le_bytes());
    put(&mut data, 0xc0, &15u16.to_le_bytes());
    put(&mut data, 0xc2, b"Animal_Insect_A");
    put(&mut data, 0xd8, &0x100u64.to_le_bytes());
    data
}

#[test]
fn parses_insect_sample() {
    let data = insect_sample();
    let file = BntxFile::parse(&data).unwrap();
    assert_eq!(file.target, "NX  ");
    assert_eq!(file.textures.len(), 1);
    let texture = &file.textures[0];
    assert_eq!(texture.name, "Animal_Insect_A");
    assert_eq!((texture.width, texture.height), (256, 256));
    assert!(!texture.data_offsets.is_empty());
}

#[test]
fn bntx_texture_fields_are_read_from_the_descriptor() {
    let file = BntxFile::parse(&insect_sample()).unwrap();
    assert_eq!(file.version, [0, 0, 4, 0]);
    assert_eq!(file.file_size, 0x200);
    let texture = &file.textures[0];
    assert_eq!(texture.format, 0x1a01);
    assert_eq!(texture.format_offset, 0x5c);
    assert_eq!(texture.block_height_log2, 4);
    assert_eq!(texture.channel_types, [2, 3, 4, 5]);
    assert_eq!(texture.data_offsets, vec![0x100]);
    assert_eq!(texture.name_offset, 0xc0);
    assert_eq!(texture.name_capacity, 15);
    assert_eq!(texture.image_size, 0x100);
    assert_eq!(texture.alignment, 0x200);
}

#[test]
fn bntx_errors_name_the_failing_offset() {
    let mut data = insect_sample();
    data[0] = b'X';
    assert_eq!(BntxFile::parse(&data).unwrap_err().offset, 0);
    let mut data = insect_sample();
    put(&mut data, 0x1c, &0x201u32.to_le_bytes());
    assert_eq!(BntxFile::parse(&data).unwrap_err().offset, 0x1c);
    let mut data = insect_sample();
    put(&mut data, 0x40, b"XXXX");
    assert_eq!(BntxFile::parse(&data).unwrap_err().offset, 0x40);
    let mut data = insect_sample();
    put(&mut data, 0xc0, &0xffffu16.to_le_bytes());
    assert_eq!(BntxFile::parse(&data).unwrap_err().offset, 0xc2);
    let mut data = insect_sample();
    put(&mut data, 0x28, &0x1f8u64.to_le_bytes());
    put(&mut data, 0x24, &2u32.to_le_bytes());
    assert_eq!(BntxFile::parse(&data).unwrap_err().offset, 0x1f8);
}

#[test]
fn bntx_name_with_invalid_utf8_is_replaced() {
    let mut data = insect_sample();
    data[0xc2] = 0xff;
    let file = BntxFile::parse(&data).unwrap();
    assert_eq!(file.textures[0].name, "\u{fffd}nimal_Insect_A");
}
