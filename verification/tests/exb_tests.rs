use asset_parsers::asb::data_type::DataType;
use asset_parsers::asb::exb::{memory_sizes, Exb};
use asset_parsers::asb::instruction::{ExbValue, Instruction};
use asset_parsers::asb::opcode::Opcode;
use asset_parsers::asb::source::Source;

fn put(out: &mut Vec<u8>, v: u32) {
    out.extend_from_slice(&v.to_le_bytes());
}

fn half(out: &mut Vec<u8>, v: u16) {
    out.extend_from_slice(&v.to_le_bytes());
}

/// A program with three instructions (a store, a terminator, a user function call)
/// and the given command records.
fn program(version: u32, records: &[(i32, u32, u32, u32)]) -> Vec<u8> {
    let record_size = if version == 2 { 28 } else { 20 };
    let info = 52u32;
    let table = info + 4 + record_size * records.len() as u32;
    let parameter = table + 4 + 24;
    let strings = parameter + 4;
    let mut out = Vec::new();
    out.extend_from_slice(b"EXB ");
    for v in [version, 8, 1, 4, 0, info, table, 44, parameter, strings] {
        put(&mut out, v);
    }
    put(&mut out, 1);
    put(&mut out, 0);
    put(&mut out, records.len() as u32);
    for (base, pre, start, count) in records {
        put(&mut out, *base as u32);
        if version == 2 {
            put(&mut out, *pre);
            put(&mut out, *start);
            put(&mut out, *count);
        } else {
            put(&mut out, *start);
        }
        put(&mut out, 0);
        half(&mut out, 0);
        half(&mut out, 0);
        half(&mut out, 2);
        half(&mut out, 3);
    }
    put(&mut out, 3);
    out.extend_from_slice(&[2, 3, 3, 0]);
    half(&mut out, 0);
    half(&mut out, 7);
    out.extend_from_slice(&[1, 0, 0, 0, 0, 0, 0, 0]);
    out.extend_from_slice(&[27, 2]);
    half(&mut out, 4);
    put(&mut out, 0);
    put(&mut out, 99);
    out.extend_from_slice(b"fn\0");
    out
}

fn check_store(i: &Instruction) {
    assert_eq!(i.opcode, Opcode::Store);
    assert_eq!(i.data_type, Some(DataType::S32));
    assert_eq!(i.lhs_source, Some(Source::ParamTbl));
    assert_eq!(i.rhs_source, Some(Source::Imm));
    assert_eq!(i.lhs_value, Some(ExbValue::Integer(99)));
    assert_eq!(i.rhs_value, Some(ExbValue::Integer(7)));
    assert_eq!(i.signature, None);
}

fn check_call(i: &Instruction) {
    assert_eq!(i.opcode, Opcode::UserFunction);
    assert_eq!(i.data_type, Some(DataType::Bool));
    assert_eq!(i.static_memory_index, Some(4));
    assert_eq!(i.signature.as_deref(), Some("fn"));
    assert_eq!(i.lhs_source, None);
}

#[test]
fn exb_version_two_takes_ranges_from_records() {
    let data = program(2, &[(-1, 5, 0, 2), (3, 0, 2, 1)]);
    let exb = Exb::from_bytes(&data).unwrap();
    assert_eq!(exb.info.magic, "EXB ");
    assert_eq!(exb.info.version, 2);
    assert_eq!(exb.info.static_memory_size, 8);
    assert_eq!(exb.info.instance_count, 1);
    assert_eq!(exb.info.scratch32_size, 4);
    assert_eq!(exb.commands.len(), 2);
    let first = &exb.commands[0];
    assert_eq!(first.base_index_pre_command_entry, -1);
    assert_eq!(first.pre_entry_static_memory_usage, Some(5));
    assert_eq!(first.output_data_type, DataType::Bool);
    assert_eq!(first.input_data_type, DataType::S32);
    assert_eq!(first.instructions.len(), 2);
    check_store(&first.instructions[0]);
    assert_eq!(first.instructions[1].opcode, Opcode::Terminator);
    assert_eq!(first.instructions[1].data_type, None);
    assert_eq!(exb.commands[1].instructions.len(), 1);
    check_call(&exb.commands[1].instructions[0]);
}

#[test]
fn exb_version_one_runs_commands_to_terminators() {
    let data = program(1, &[(0, 0, 0, 0), (1, 0, 0, 0), (2, 0, 0, 0)]);
    let exb = Exb::from_bytes(&data).unwrap();
    assert_eq!(exb.info.version, 1);
    assert_eq!(exb.commands.len(), 3);
    assert_eq!(exb.commands[0].pre_entry_static_memory_usage, None);
    assert_eq!(exb.commands[0].instructions.len(), 2);
    check_store(&exb.commands[0].instructions[0]);
    assert_eq!(exb.commands[1].instructions.len(), 1);
    check_call(&exb.commands[1].instructions[0]);
    assert!(exb.commands[2].instructions.is_empty());
}

#[test]
fn exb_rejects_bad_headers_and_ranges() {
    let good = program(2, &[(0, 0, 0, 2)]);
    let mut bad = good.clone();
    bad[0] = b'X';
    assert!(Exb::from_bytes(&bad).is_err());
    let mut bad = good.clone();
    bad[4] = 3;
    assert!(Exb::from_bytes(&bad).is_err());
    assert!(Exb::from_bytes(&good[..40]).is_err());
    assert!(Exb::from_bytes(&program(2, &[(0, 0, 2, 2)])).is_err());
    let mut bad = good.clone();
    let len = bad.len();
    bad.truncate(len - 1);
    assert!(Exb::from_bytes(&bad).is_err());
}

#[test]
fn memory_sizes_take_the_furthest_operand() {
    let mut store = Instruction::terminator();
    store.opcode = Opcode::Store;
    store.data_type = Some(DataType::Vec3f);
    store.lhs_source = Some(Source::StaticMem);
    store.lhs_index = Some(4);
    store.rhs_source = Some(Source::Scratch32);
    store.rhs_index = Some(8);
    let mut call = Instruction::terminator();
    call.opcode = Opcode::UserFunction;
    call.data_type = Some(DataType::Bool);
    call.static_memory_index = Some(20);
    let mut wide = Instruction::terminator();
    wide.opcode = Opcode::Store;
    wide.lhs_source = Some(Source::Scratch64);
    wide.lhs_index = Some(2);
    wide.rhs_source = Some(Source::Imm);
    wide.rhs_index = Some(100);
    assert_eq!(memory_sizes(&[store, call, wide]), (24, 20, 6));
    assert_eq!(memory_sizes(&[]), (0, 0, 0));
}

#[test]
fn exb_programs_written_read_back() {
    let data = program(2, &[(-1, 5, 0, 2), (3, 0, 2, 1)]);
    let exb = Exb::from_bytes(&data).unwrap();
    let bytes = exb.to_bytes(1).unwrap();
    let word = |p: usize| u32::from_le_bytes([bytes[p], bytes[p + 1], bytes[p + 2], bytes[p + 3]]);
    assert_eq!(&bytes[0..4], b"EXB ");
    assert_eq!(word(4), 2);
    assert_eq!(word(8), 8);
    assert_eq!(word(12), 1);
    assert_eq!((word(16), word(20)), (0, 0));
    assert_eq!(word(24), 44);
    assert_eq!(word(28), 104);
    assert_eq!(word(32), 132);
    assert_eq!(word(36), 140);
    assert_eq!(word(40), 144);
    assert_eq!(word(140), 99);
    assert_eq!(&bytes[144..147], b"fn\0");
    assert_eq!(bytes.len(), 147);
    let again = Exb::from_bytes(&bytes).unwrap();
    assert_eq!(again.info.version, 2);
    assert_eq!(again.info.instance_count, 1);
    assert_eq!(again.info.static_memory_size, 8);
    assert_eq!(again.commands.len(), 2);
    assert_eq!(again.commands[0].base_index_pre_command_entry, -1);
    assert_eq!(again.commands[0].pre_entry_static_memory_usage, Some(5));
    assert_eq!(again.commands[0].instructions.len(), 2);
    check_store(&again.commands[0].instructions[0]);
    assert_eq!(again.commands[0].instructions[1].opcode, Opcode::Terminator);
    check_call(&again.commands[1].instructions[0]);
}
