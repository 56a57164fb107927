use asset_parsers::evfl::relocation::is_relocated_pointer;
use asset_parsers::evfl::radix::{differing_bit, first_set_bit, next_bit, radix_nodes, reverse_bits};
use asset_parsers::evfl::trigger::Trigger;
use asset_parsers::evfl::writer::EvflWriter;

#[test]
fn writer_appends_patches_and_aligns() {
    let mut w = EvflWriter::new();
    w.u8(1);
    w.align(4);
    assert_eq!(w.pos(), 4);
    w.patch_u16(0, 0x0302);
    w.u32(0x0a0b_0c0d);
    w.u64(0x0102_0304_0506_0708);
    let slot = w.reserve_u32();
    assert_eq!(slot, 16);
    w.patch_u32(slot, 7);
    w.patch_u64(8, 9);
    w.u16(0xbeef);
    w.bytes(&[5, 6]);
    let out = w.finish();
    assert_eq!(
        out,
        vec![2, 3, 0, 0, 0x0d, 0x0c, 0x0b, 0x0a, 9, 0, 0, 0, 0, 0, 0, 0, 7, 0, 0, 0, 0xef, 0xbe, 5, 6]
    );
}

#[test]
fn relocation_table_lists_registered_pointers() {
    let mut w = EvflWriter::new();
    w.bytes(&[0u8; 24]);
    let slot = w.reserve_u32();
    w.u32(0);
    assert_eq!(w.reserve_ptr(false), 32);
    assert_eq!(w.reserve_ptr(true), 40);
    assert_eq!(w.reserve_ptr_with_null_registration(true, true), 48);
    w.bytes(&[1, 2, 3]);
    w.align(8);
    w.bytes(&[0u8; 296]);
    assert_eq!(w.reserve_ptr(false), 360);
    w.write_relocation_table(slot);
    let out = w.finish();
    assert_eq!(out.len(), 424);
    assert_eq!(&out[24..28], &368u32.to_le_bytes());
    assert_eq!(&out[368..372], b"RELT");
    assert_eq!(&out[372..376], &368u32.to_le_bytes());
    assert_eq!(&out[376..380], &1u32.to_le_bytes());
    assert_eq!(&out[396..400], &368u32.to_le_bytes());
    assert_eq!(&out[404..408], &2u32.to_le_bytes());
    assert_eq!(&out[408..412], &32u32.to_le_bytes());
    assert_eq!(&out[412..416], &5u32.to_le_bytes());
    assert_eq!(&out[416..420], &360u32.to_le_bytes());
    assert_eq!(&out[420..424], &1u32.to_le_bytes());
    for (address, expected) in [(32, true), (48, true), (360, true), (40, false), (0, false), (368, false), (36, false)] {
        assert_eq!(is_relocated_pointer(&out, address).unwrap(), expected, "address {address}");
    }
}

#[test]
fn relocation_table_of_one_pointer() {
    let mut w = EvflWriter::new();
    w.bytes(&[0u8; 32]);
    w.reserve_ptr(false);
    w.write_relocation_table(24);
    let out = w.finish();
    assert_eq!(&out[24..28], &40u32.to_le_bytes());
    assert_eq!(&out[76..80], &1u32.to_le_bytes());
    assert_eq!(&out[80..84], &32u32.to_le_bytes());
    assert_eq!(&out[84..88], &1u32.to_le_bytes());
    assert!(is_relocated_pointer(&out, 32).unwrap());
}

#[test]
fn dictionary_bits_read_units_from_the_end() {
    assert_eq!(next_bit("ab", 0), 0);
    assert_eq!(next_bit("ab", 1), 1);
    assert_eq!(next_bit("ab", 8), 1);
    assert_eq!(next_bit("ab", 16), 0);
    assert_eq!(next_bit("ab", -1), 0);
    assert_eq!(next_bit("", 3), 0);
    assert_eq!(next_bit("\u{1F600}", 8), 1);
    assert_eq!(next_bit("\u{1F600}", 9), 0);
}

#[test]
fn dictionary_bits_find_differences() {
    assert_eq!(differing_bit("ab", "ab"), 16);
    assert_eq!(differing_bit("a", "b"), 0);
    assert_eq!(differing_bit("ab", "cb"), 9);
    assert_eq!(differing_bit("b", "ab"), 8);
    assert_eq!(differing_bit("", ""), 0);
    assert_eq!(first_set_bit("a"), 0);
    assert_eq!(first_set_bit("\u{0}"), 8);
    assert_eq!(first_set_bit("\u{0}b"), 1);
    assert_eq!(first_set_bit("p\u{0}"), 12);
    assert_eq!(first_set_bit(""), 0);
    assert_eq!(first_set_bit("\u{1F600}"), 9);
}

#[test]
fn pool_keys_reverse_bytes_and_bits() {
    assert_eq!(reverse_bits("ab"), vec![0x46, 0x86]);
    assert!(reverse_bits("").is_empty());
}

#[test]
fn triggers_read_clip_and_kind() {
    let data = [9u8, 0xfe, 0xff, 3, 7];
    assert_eq!(Trigger::read(&data, 1).unwrap(), Trigger { clip_index: -2, trigger_type: 3 });
    assert_eq!(Trigger::read(&data, 2).unwrap(), Trigger { clip_index: 0x03ff, trigger_type: 7 });
    assert!(Trigger::read(&data, 3).is_err());
    assert!(Trigger::read(&data, 100).is_err());
}

#[test]
fn dictionary_trees_insert_names_in_order() {
    let nodes = radix_nodes(&["a", "b"]).unwrap();
    assert_eq!(nodes.len(), 3);
    assert_eq!((nodes[0].name.as_str(), nodes[0].bit, nodes[0].child, nodes[0].parent), ("", -1, [1, 0], 0));
    assert_eq!((nodes[1].name.as_str(), nodes[1].bit, nodes[1].child, nodes[1].parent), ("a", 0, [2, 1], 0));
    assert_eq!((nodes[2].name.as_str(), nodes[2].bit, nodes[2].child, nodes[2].parent), ("b", 1, [0, 2], 1));
    let empty = radix_nodes(&[]).unwrap();
    assert_eq!(empty.len(), 1);
    let many = radix_nodes(&["Entry", "Timeline", "Flow", "Actor", "Entry2"]).unwrap();
    assert_eq!(many.len(), 6);
    for node in &many {
        assert!(node.child[0] < many.len() && node.child[1] < many.len() && node.parent < many.len());
    }
}

#[test]
fn writer_appends_signed_values() {
    let mut w = EvflWriter::new();
    w.i16(-2);
    w.i32(-1);
    w.i32(0x0102_0304);
    assert_eq!(w.finish(), vec![0xfe, 0xff, 0xff, 0xff, 0xff, 0xff, 4, 3, 2, 1]);
}

fn le32(out: &[u8], at: usize) -> u32 {
    u32::from_le_bytes([out[at], out[at + 1], out[at + 2], out[at + 3]])
}

#[test]
fn string_pool_orders_strings_and_points_slots_at_them() {
    let mut w = EvflWriter::new();
    w.bytes(&[0u8; 28]);
    w.string_ref("b", false);
    w.string_ref("a", true);
    w.string_ref("b", true);
    w.write_string_pool().unwrap();
    let out = w.finish();
    assert_eq!(out.len(), 80);
    assert_eq!(&out[48..52], b"STR ");
    assert_eq!(le32(&out, 64), 2);
    assert_eq!(&out[68..72], &[0, 0, 0, 0]);
    assert_eq!(&out[72..76], &[1, 0, b'b', 0]);
    assert_eq!(&out[76..80], &[1, 0, b'a', 0]);
    assert_eq!(u64::from_le_bytes(out[28..36].try_into().unwrap()), 72);
    assert_eq!(le32(&out, 36), 78);
    assert_eq!(le32(&out, 40), 74);
}

#[test]
fn pool_keys_fill_their_slots() {
    let mut w = EvflWriter::new();
    w.bytes(&[0u8; 24]);
    w.string_ref("__POOL_PATCH_12", true);
    w.string_ref("__POOL_PATCH_012", true);
    w.write_string_pool().unwrap();
    let out = w.finish();
    assert_eq!(out.len(), 76);
    assert_eq!(le32(&out, 12), 24);
    assert_eq!(le32(&out, 24), 0);
    assert_eq!(le32(&out, 28), 58);
    assert_eq!(le32(&out, 48), 1);
    assert_eq!(&out[58..74], b"__POOL_PATCH_012");
}

#[test]
fn inline_strings_follow_their_slots() {
    let mut w = EvflWriter::new();
    w.bytes(&[7]);
    w.inline_strings(2, &["abc", "c"]).unwrap();
    let out = w.finish();
    assert_eq!(u64::from_le_bytes(out[1..9].try_into().unwrap()), 17);
    assert_eq!(&out[17..23], &[3, 0, b'a', b'b', b'c', 0]);
    assert_eq!(out[23], 0);
    assert_eq!(u64::from_le_bytes(out[9..17].try_into().unwrap()), 24);
    assert_eq!(&out[24..28], &[1, 0, b'c', 0]);
    assert_eq!(out.len(), 28);
    let mut w = EvflWriter::new();
    w.inline_strings(1, &["abc", "c"]).unwrap();
    let out = w.finish();
    assert_eq!(u64::from_le_bytes(out[8..16].try_into().unwrap()), 22);
    assert_eq!(out.len(), 26);
}

#[test]
fn dictionaries_list_nodes_with_name_slots() {
    let mut w = EvflWriter::new();
    w.write_radix(&["a", "b"]).unwrap();
    w.write_string_pool().unwrap();
    let out = w.finish();
    assert_eq!(&out[0..4], b"DIC ");
    assert_eq!(le32(&out, 4), 2);
    assert_eq!(le32(&out, 8), u32::MAX);
    assert_eq!(&out[12..16], &[1, 0, 0, 0]);
    assert_eq!(le32(&out, 24), 0);
    assert_eq!(&out[28..32], &[2, 0, 1, 0]);
    assert_eq!(le32(&out, 40), 1);
    assert_eq!(&out[44..48], &[0, 0, 2, 0]);
}
