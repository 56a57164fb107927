use asset_parsers::amta::file::AmtaFile;

fn sample_v5() -> Vec<u8> {
    let mut d = Vec::new();
    d.extend_from_slice(b"AMTA");
    d.extend_from_slice(&[0xff, 0xfe, 0, 5]);
    for v in [0x60u32, 0x1122_3344, 0x28, 0x40, 0x40, 0, 7, 0x200] {
        d.extend_from_slice(&v.to_le_bytes());
    }
    assert_eq!(d.len(), 0x28);
    d.extend_from_slice(b"DATA");
    d.extend_from_slice(&1.0f32.to_bits().to_le_bytes());
    d.extend_from_slice(&[0, 0, 0, 0]);
    d.extend_from_slice(b"ab\0\0");
    d.resize(0x40, 0);
    d.extend_from_slice(&[1, 2, 3, 4, 0]);
    d.extend_from_slice(b"hello\0x\0");
    d.resize(0x60, 0);
    d
}

#[test]
fn amta_v5_sections_chunks_and_notes() {
    let data = sample_v5();
    let file = AmtaFile::parse(&data).unwrap();
    assert_eq!(file.magic, "AMTA");
    assert_eq!(file.version, 5);
    assert_eq!(file.byte_order, "Little");
    assert_eq!(file.byte_order_mark, "FF FE");
    assert_eq!(file.declared_file_size, 0x60);
    assert_eq!(file.file_size, 0x60);
    assert_eq!(file.trailing_bytes, 0);
    assert_eq!(file.header_size, 0x28);
    assert_eq!(file.header_fields.len(), 7);
    assert_eq!(file.header_fields[0].name, "unknown_0c");
    assert_eq!(file.header_fields[0].raw_hex, "11223344");
    assert_eq!(file.header_fields[0].target, None);
    assert_eq!(file.header_fields[1].offset, 0x10);
    assert_eq!(file.header_fields[1].target, Some(0x28));
    assert_eq!(file.header_fields[6].target, None);
    assert_eq!(file.section_offsets, vec![0x28, 0x40]);
    assert_eq!(file.diagnostics, vec!["string_table_offset points outside the file: 0x200".to_string()]);
    assert_eq!(file.chunks.len(), 2);
    let data_chunk = &file.chunks[0];
    assert_eq!(data_chunk.magic, "DATA");
    assert_eq!(data_chunk.source, "data");
    assert_eq!(data_chunk.size, 0x18);
    assert_eq!(data_chunk.alignment, 8);
    assert_eq!(data_chunk.strings, vec!["DATA".to_string(), "ab".to_string()]);
    assert_eq!(data_chunk.words.len(), 6);
    assert_eq!(data_chunk.words[0].ascii.as_deref(), Some("DATA"));
    assert_eq!(data_chunk.words[0].raw_hex, "41544144");
    assert_eq!(data_chunk.words[1].float, Some(1.0f32.to_bits()));
    assert_eq!(data_chunk.words[2].float, None);
    assert_eq!(data_chunk.preview_hex.len(), 0x18 * 3 - 1);
    let second = &file.chunks[1];
    assert_eq!(second.magic, "SECTION_1");
    assert_eq!(second.source, "section_1");
    assert_eq!(second.end_offset, 0x60);
    assert_eq!(second.alignment, 64);
    assert_eq!(second.string_entries.len(), 1);
    assert_eq!(second.string_entries[0].offset, 0x45);
    assert_eq!(second.string_entries[0].value, "hello");
    assert_eq!(file.total_words, 14);
    assert_eq!(file.name, "hello");
    let zeros = data.iter().filter(|&&b| b == 0).count();
    assert_eq!(file.total_zero_bytes, zeros);
    assert_eq!(file.total_strings, file.strings.len());
}

#[test]
fn amta_big_endian_v4_and_declared_size_notes() {
    let mut d = Vec::new();
    d.extend_from_slice(b"AMTA");
    d.extend_from_slice(&[0xfe, 0xff, 0, 4]);
    for v in [0x30u32, 0x1c, 0, 0, 0] {
        d.extend_from_slice(&v.to_be_bytes());
    }
    d.extend_from_slice(b"NAME\0\0\0\0");
    let file = AmtaFile::parse(&d).unwrap();
    assert_eq!(file.byte_order, "Big");
    assert_eq!(file.byte_order_mark, "FE FF");
    assert_eq!(file.file_size, d.len());
    assert_eq!(file.header_size, 0x1c);
    assert_eq!(file.section_offsets, vec![0x1c]);
    assert_eq!(file.chunks[0].magic, "NAME");
    assert_eq!(file.chunks[0].source, "section_0");
    assert_eq!(
        file.diagnostics,
        vec![format!("Declared size 0x30 differs from available size 0x{:x}", d.len())]
    );
}

#[test]
fn amta_rejections_carry_their_messages() {
    let mut d = sample_v5();
    d[3] = b'B';
    assert_eq!(AmtaFile::parse(&d).unwrap_err(), "not an AMTA file");
    assert_eq!(AmtaFile::parse(&sample_v5()[..0x1b]).unwrap_err(), "not an AMTA file");
    let mut d = sample_v5();
    d[4] = 0;
    assert_eq!(AmtaFile::parse(&d).unwrap_err(), "invalid AMTA byte order");
    let mut d = sample_v5();
    d[8] = 0x20;
    assert_eq!(AmtaFile::parse(&d).unwrap_err(), "AMTA v5 header exceeds declared file size 0x20");
}
