use vstd::prelude::*;
use crate::asb::data_type::{data_type_from_code, DataType};
use crate::asb::instruction::{terminator_spec, ExbValue, Instruction};
use crate::asb::opcode::{opcode_from_code, Opcode};
use crate::asb::source::{source_from_code, Source};
use crate::binary::{c_string_at, signed32, to_i32, u16_at, u32_at, BinaryReader, Endian};
use crate::error::{invalid, Error, ErrorKind};

verus! {

/// The little-endian 32-bit value at `p`.
pub open spec fn le32(b: Seq<u8>, p: int) -> u32 {
    u32_at(b, p, Endian::Little)
}

/// The little-endian 16-bit value at `p`.
pub open spec fn le16(b: Seq<u8>, p: int) -> u16 {
    u16_at(b, p, Endian::Little)
}

/// Whether the operand named by `source` and `index` can be read: the strings it
/// names are terminated UTF-8 and the parameter words it names are present.
pub open spec fn operand_ok(
    b: Seq<u8>,
    parameter: int,
    strings: int,
    ty: DataType,
    source: Source,
    index: u16,
) -> bool {
    let p = parameter + index;
    match source {
        Source::ImmStr => c_string_at(b, strings + index) is Some,
        Source::ParamTbl => p <= b.len() && match ty {
            DataType::Bool | DataType::S32 | DataType::F32 => p + 4 <= b.len(),
            DataType::Vec3f => p + 12 <= b.len(),
            _ => true,
        },
        Source::ParamTblStr => p + 4 <= b.len() && c_string_at(b, strings + le32(b, p)) is Some,
        _ => true,
    }
}

/// The operand named by `source` and `index`: an immediate is the index itself, a
/// string is read from the string pool, a parameter from the parameter table by the
/// instruction's data type; other sources carry no value.
pub open spec fn operand_is(
    b: Seq<u8>,
    parameter: int,
    strings: int,
    ty: DataType,
    source: Source,
    index: u16,
    v: Option<ExbValue>,
) -> bool {
    let p = parameter + index;
    match source {
        Source::Imm => v == Some(ExbValue::Integer(index as u32)),
        Source::ImmStr => v matches Some(ExbValue::String(s)) && s@ == c_string_at(
            b,
            strings + index,
        )->Some_0,
        Source::ParamTbl => match ty {
            DataType::Bool => v == Some(ExbValue::Bool(le32(b, p) != 0)),
            DataType::S32 => v == Some(ExbValue::Integer(le32(b, p))),
            DataType::F32 => v == Some(ExbValue::Float(le32(b, p))),
            DataType::Vec3f => v matches Some(ExbValue::Vec3f(a)) && a@ == seq![
                le32(b, p),
                le32(b, p + 4),
                le32(b, p + 8),
            ],
            _ => v is None,
        },
        Source::ParamTblStr => v matches Some(ExbValue::String(s)) && s@ == c_string_at(
            b,
            strings + le32(b, p),
        )->Some_0,
        _ => v is None,
    }
}

/// The zero-terminated UTF-8 string at `offset` of `data`.
fn read_string(data: &[u8], offset: usize) -> (r: Result<String, Error>)
    ensures
        r is Ok <==> c_string_at(data@, offset as int) is Some,
        r matches Ok(s) ==> s@ == c_string_at(data@, offset as int)->Some_0,
{
    BinaryReader::new(data).read_c_string_at(offset)
}

/// The string at `offset` past the pool at `strings`, when both lie in `data`.
fn read_pool_string(data: &[u8], strings: usize, offset: usize) -> (r: Result<String, Error>)
    ensures
        r is Ok <==> c_string_at(data@, strings + offset) is Some,
        r matches Ok(s) ==> s@ == c_string_at(data@, strings + offset)->Some_0,
{
    if strings > data.len() || offset > data.len() - strings {
        return Err(crate::error::eof("EXB string offset past end of input"));
    }
    read_string(data, strings + offset)
}

/// The little-endian word at `p` of `data`.
fn word_at(data: &[u8], p: usize) -> (r: Result<u32, Error>)
    ensures
        r is Ok <==> p + 4 <= data@.len(),
        r matches Ok(v) ==> v == le32(data@, p as int),
{
    let v = BinaryReader::new(data).read_u32_at(p)?;
    Ok(v)
}

/// The operand that `source` and `index` name, read from the parameter table at
/// `parameter` or the string pool at `strings`.
fn read_operand(
    data: &[u8],
    parameter: usize,
    strings: usize,
    ty: DataType,
    source: Source,
    index: u16,
) -> (r: Result<Option<ExbValue>, Error>)
    ensures
        r is Ok <==> operand_ok(data@, parameter as int, strings as int, ty, source, index),
        r matches Ok(v) ==> operand_is(data@, parameter as int, strings as int, ty, source, index, v),
{
    match source {
        Source::Imm => Ok(Some(ExbValue::Integer(index as u32))),
        Source::ImmStr => {
            let s = read_pool_string(data, strings, index as usize)?;
            Ok(Some(ExbValue::String(s)))
        },
        Source::ParamTbl => {
            if parameter > data.len() || index as usize > data.len() - parameter {
                return Err(crate::error::eof("EXB parameter offset past end of input"));
            }
            let p = parameter + index as usize;
            match ty {
                DataType::Bool => {
                    let v = word_at(data, p)?;
                    Ok(Some(ExbValue::Bool(v != 0)))
                },
                DataType::S32 => {
                    let v = word_at(data, p)?;
                    Ok(Some(ExbValue::Integer(v)))
                },
                DataType::F32 => {
                    let v = word_at(data, p)?;
                    Ok(Some(ExbValue::Float(v)))
                },
                DataType::Vec3f => {
                    let x = word_at(data, p)?;
                    if data.len() - p < 12 {
                        return Err(crate::error::eof("EXB vector past end of input"));
                    }
                    let y = word_at(data, p + 4)?;
                    let z = word_at(data, p + 8)?;
                    let a = [x, y, z];
                    assert(a@ =~= seq![x, y, z]);
                    Ok(Some(ExbValue::Vec3f(a)))
                },
                _ => Ok(None),
            }
        },
        Source::ParamTblStr => {
            if parameter > data.len() || index as usize > data.len() - parameter {
                return Err(crate::error::eof("EXB parameter offset past end of input"));
            }
            let p = parameter + index as usize;
            let offset = word_at(data, p)?;
            let s = read_pool_string(data, strings, offset as usize)?;
            Ok(Some(ExbValue::String(s)))
        },
        _ => Ok(None),
    }
}

/// Whether the eight-byte instruction at `at` can be read: a known opcode, and unless
/// it is a terminator a known data type; a user function's signature index within
/// `signatures` and its signature a string; else known sources and readable operands.
pub open spec fn instruction_ok(b: Seq<u8>, at: int, parameter: int, strings: int, signatures: Seq<usize>) -> bool {
    let op = opcode_from_code(b[at]);
    let ty = data_type_from_code(b[at + 1] as u16);
    let lhs = source_from_code(b[at + 2]);
    let rhs = source_from_code(b[at + 3]);
    &&& at + 8 <= b.len()
    &&& op is Some
    &&& op != Some(Opcode::Terminator) ==> {
        &&& ty is Some
        &&& if op == Some(Opcode::UserFunction) {
            let k = le32(b, at + 4);
            k < signatures.len() && c_string_at(b, strings + signatures[k as int]) is Some
        } else {
            &&& lhs is Some
            &&& rhs is Some
            &&& operand_ok(b, parameter, strings, ty->Some_0, lhs->Some_0, le16(b, at + 4))
            &&& operand_ok(b, parameter, strings, ty->Some_0, rhs->Some_0, le16(b, at + 6))
        }
    }
}

/// Whether `i` is the instruction at `at`, which can be read.
pub open spec fn instruction_is(
    b: Seq<u8>,
    at: int,
    parameter: int,
    strings: int,
    signatures: Seq<usize>,
    i: Instruction,
) -> bool {
    let op = opcode_from_code(b[at])->Some_0;
    let ty = data_type_from_code(b[at + 1] as u16)->Some_0;
    let lhs = source_from_code(b[at + 2])->Some_0;
    let rhs = source_from_code(b[at + 3])->Some_0;
    if op == Opcode::Terminator {
        i == terminator_spec()
    } else if op == Opcode::UserFunction {
        &&& i.opcode == op
        &&& i.data_type == Some(ty)
        &&& i.lhs_source is None
        &&& i.rhs_source is None
        &&& i.lhs_index is None
        &&& i.rhs_index is None
        &&& i.lhs_value is None
        &&& i.rhs_value is None
        &&& i.static_memory_index == Some(le16(b, at + 2))
        &&& i.signature matches Some(s) && s@ == c_string_at(
            b,
            strings + signatures[le32(b, at + 4) as int],
        )->Some_0
    } else {
        &&& i.opcode == op
        &&& i.data_type == Some(ty)
        &&& i.lhs_source == Some(lhs)
        &&& i.rhs_source == Some(rhs)
        &&& i.lhs_index == Some(le16(b, at + 4))
        &&& i.rhs_index == Some(le16(b, at + 6))
        &&& operand_is(b, parameter, strings, ty, lhs, le16(b, at + 4), i.lhs_value)
        &&& operand_is(b, parameter, strings, ty, rhs, le16(b, at + 6), i.rhs_value)
        &&& i.static_memory_index is None
        &&& i.signature is None
    }
}

/// The instruction at `at` of `data`.
#[verifier::rlimit(40)]
fn read_instruction(
    data: &[u8],
    at: usize,
    parameter: usize,
    strings: usize,
    signatures: &[usize],
) -> (r: Result<Instruction, Error>)
    ensures
        r is Ok <==> instruction_ok(data@, at as int, parameter as int, strings as int, signatures@),
        r matches Ok(i) ==> instruction_is(data@, at as int, parameter as int, strings as int, signatures@, i),
{
    let reader = BinaryReader::new(data);
    let opcode = Opcode::from_u8(reader.read_u8_at(at)?)?;
    if data.len() - at < 8 {
        return Err(crate::error::eof("EXB instruction past end of input"));
    }
    if opcode == Opcode::Terminator {
        return Ok(Instruction::terminator());
    }
    let data_type = DataType::from_u16(reader.read_u8_at(at + 1)? as u16)?;
    if opcode == Opcode::UserFunction {
        let index = reader.read_u16_at(at + 2)?;
        let signature_index = word_at(data, at + 4)? as usize;
        if signature_index >= signatures.len() {
            return Err(invalid("EXB signature index exceeds table"));
        }
        let signature = read_pool_string(data, strings, signatures[signature_index])?;
        return Ok(Instruction {
            opcode,
            data_type: Some(data_type),
            lhs_source: None,
            rhs_source: None,
            lhs_index: None,
            rhs_index: None,
            lhs_value: None,
            rhs_value: None,
            static_memory_index: Some(index),
            signature: Some(signature),
        });
    }
    let lhs_source = Source::from_u8(reader.read_u8_at(at + 2)?)?;
    let rhs_source = Source::from_u8(reader.read_u8_at(at + 3)?)?;
    let lhs_index = reader.read_u16_at(at + 4)?;
    let rhs_index = reader.read_u16_at(at + 6)?;
    let lhs_value = read_operand(data, parameter, strings, data_type, lhs_source, lhs_index)?;
    let rhs_value = read_operand(data, parameter, strings, data_type, rhs_source, rhs_index)?;
    Ok(Instruction {
        opcode,
        data_type: Some(data_type),
        lhs_source: Some(lhs_source),
        rhs_source: Some(rhs_source),
        lhs_index: Some(lhs_index),
        rhs_index: Some(rhs_index),
        lhs_value,
        rhs_value,
        static_memory_index: None,
        signature: None,
    })
}

/// The header fields of an EXB file.
#[derive(Clone, Debug)]
pub struct ExbInfo {
    pub magic: String,
    pub version: u32,
    pub static_memory_size: u32,
    pub instance_count: u32,
    pub scratch32_size: u32,
    pub scratch64_size: u32,
}

/// One command: where it sits among the pre-command entries, its static memory use
/// (version 2), its output and input types and its instructions.
#[derive(Clone, Debug)]
pub struct CommandInfo {
    pub base_index_pre_command_entry: i32,
    pub pre_entry_static_memory_usage: Option<u32>,
    pub output_data_type: DataType,
    pub input_data_type: DataType,
    pub instructions: Vec<Instruction>,
}

/// An EXB expression program: its header and its commands.
#[derive(Clone, Debug)]
pub struct Exb {
    pub info: ExbInfo,
    pub commands: Vec<CommandInfo>,
}

/// A command record as read from the info table: base index, static memory use,
/// first instruction, instruction count, output type and input type.
pub type CommandRecord = (i32, Option<u32>, usize, Option<usize>, DataType, DataType);

/// The size of a command record: 28 bytes in version 2, which adds the static memory
/// use and the instruction count, else 20.
pub open spec fn record_size(version: u32) -> int {
    if version == 2 {
        28
    } else {
        20
    }
}

/// Where the two data types of a record start within it.
pub open spec fn record_types_at(version: u32) -> int {
    if version == 2 {
        24
    } else {
        16
    }
}

/// Where record `c` of the table at `info` starts.
pub open spec fn record_at(info: int, version: u32, c: int) -> int {
    info + 4 + record_size(version) * c
}

/// Whether the record at `q` names two known data types.
pub open spec fn record_ok(b: Seq<u8>, q: int, version: u32) -> bool {
    &&& data_type_from_code(le16(b, q + record_types_at(version))) is Some
    &&& data_type_from_code(le16(b, q + record_types_at(version) + 2)) is Some
}

/// Whether `t` is the record at `q`.
pub open spec fn record_is(b: Seq<u8>, q: int, version: u32, t: CommandRecord) -> bool {
    let o = record_types_at(version);
    &&& t.0 == signed32(le32(b, q) as int)
    &&& t.1 == (if version == 2 { Some(le32(b, q + 4)) } else { None })
    &&& t.2 == (if version == 2 { le32(b, q + 8) } else { le32(b, q + 4) }) as usize
    &&& t.3 == (if version == 2 { Some(le32(b, q + 12) as usize) } else { None })
    &&& Some(t.4) == data_type_from_code(le16(b, q + o))
    &&& Some(t.5) == data_type_from_code(le16(b, q + o + 2))
}

/// Whether the `n` records from `info + 4` lie in `b` and name known data types,
/// where `n` is the count at `info`.
pub open spec fn records_ok(b: Seq<u8>, info: int, version: u32) -> bool {
    let n = le32(b, info) as int;
    &&& info + 4 <= b.len()
    &&& info + 4 + record_size(version) * n <= b.len()
    &&& forall|c: int| 0 <= c < n ==> record_ok(b, #[trigger] record_at(info, version, c), version)
}

/// The offsets in the signature table at `s`: a count, then that many words.
pub open spec fn signatures_at(b: Seq<u8>, s: int) -> Seq<usize> {
    Seq::new(le32(b, s) as nat, |i: int| le32(b, s + 4 + 4 * i) as usize)
}

/// Whether the signature table at `s` lies in `b`.
pub open spec fn signatures_ok(b: Seq<u8>, s: int) -> bool {
    s + 4 <= b.len() && s + 4 + 4 * le32(b, s) <= b.len()
}

/// Whether the instruction table at `table` lies in `b` and each of its instructions
/// can be read.
pub open spec fn instructions_ok(
    b: Seq<u8>,
    table: int,
    parameter: int,
    strings: int,
    signatures: Seq<usize>,
) -> bool {
    &&& table + 4 <= b.len()
    &&& forall|k: int|
        0 <= k < le32(b, table) ==> #[trigger] instruction_ok(
            b,
            table + 4 + 8 * k,
            parameter,
            strings,
            signatures,
        )
}

/// The signature offset table of an EXB file.
pub open spec fn exb_signatures(b: Seq<u8>) -> Seq<usize> {
    signatures_at(b, le32(b, 32) as int)
}

/// Whether `i` is instruction `k` of the EXB file `b`.
pub open spec fn exb_instruction_is(b: Seq<u8>, k: int, i: Instruction) -> bool {
    instruction_is(b, le32(b, 28) + 4 + 8 * k, le32(b, 36) as int, le32(b, 40) as int, exb_signatures(b), i)
}

/// The number of instructions of an EXB file.
pub open spec fn exb_instruction_count(b: Seq<u8>) -> int {
    le32(b, le32(b, 28) as int) as int
}

/// Whether instruction `k` of an EXB file is a terminator.
pub open spec fn is_terminator(b: Seq<u8>, k: int) -> bool {
    opcode_from_code(b[le32(b, 28) + 4 + 8 * k]) == Some(Opcode::Terminator)
}

/// Where a version-1 command that starts at instruction `s` ends: just past the next
/// terminator, or at the end of the table.
pub open spec fn sequential_end(b: Seq<u8>, s: int) -> int
    decreases exb_instruction_count(b) - s,
{
    if s >= exb_instruction_count(b) {
        if s < 0 { 0 } else { s }
    } else if is_terminator(b, s) {
        s + 1
    } else {
        sequential_end(b, s + 1)
    }
}

/// Where version-1 command `c` starts: each command takes over where the one before ended.
pub open spec fn sequential_start(b: Seq<u8>, c: int) -> int
    decreases c,
{
    if c <= 0 {
        0
    } else {
        sequential_end(b, sequential_start(b, c - 1))
    }
}

/// Where command record `c` of an EXB file starts.
pub open spec fn exb_record_at(b: Seq<u8>, c: int) -> int {
    record_at(le32(b, 24) as int, le32(b, 4), c)
}

/// The first instruction of command `c`.
pub open spec fn command_start(b: Seq<u8>, c: int) -> int {
    let q = exb_record_at(b, c);
    if le32(b, 4) == 2 {
        le32(b, q + 8) as int
    } else {
        sequential_start(b, c)
    }
}

/// Where the instructions of command `c` end.
pub open spec fn command_end(b: Seq<u8>, c: int) -> int {
    let q = exb_record_at(b, c);
    if le32(b, 4) == 2 {
        le32(b, q + 8) + le32(b, q + 12)
    } else {
        sequential_end(b, sequential_start(b, c))
    }
}

/// Whether `cmd` is command `c` of the EXB file `b`.
pub open spec fn command_is(b: Seq<u8>, c: int, cmd: CommandInfo) -> bool {
    let v = le32(b, 4);
    let q = exb_record_at(b, c);
    let o = record_types_at(v);
    &&& cmd.base_index_pre_command_entry == signed32(le32(b, q) as int)
    &&& cmd.pre_entry_static_memory_usage == (if v == 2 { Some(le32(b, q + 4)) } else { None })
    &&& Some(cmd.output_data_type) == data_type_from_code(le16(b, q + o))
    &&& Some(cmd.input_data_type) == data_type_from_code(le16(b, q + o + 2))
    &&& cmd.instructions.len() == command_end(b, c) - command_start(b, c)
    &&& forall|j: int|
        0 <= j < cmd.instructions.len() ==> exb_instruction_is(
            b,
            command_start(b, c) + j,
            #[trigger] cmd.instructions[j],
        )
}

/// Whether `b` is an EXB file that can be read: the magic `EXB `, version 1 or 2, and
/// its signature, command and instruction tables in bounds and readable; in version 2
/// each command's instruction range lies within the instruction table.
pub open spec fn exb_ok(b: Seq<u8>) -> bool {
    let v = le32(b, 4);
    let info = le32(b, 24) as int;
    let n = le32(b, info) as int;
    let m = exb_instruction_count(b);
    &&& 44 <= b.len()
    &&& b[0] == 0x45 && b[1] == 0x58 && b[2] == 0x42 && b[3] == 0x20
    &&& v == 1 || v == 2
    &&& signatures_ok(b, le32(b, 32) as int)
    &&& records_ok(b, info, v)
    &&& instructions_ok(b, le32(b, 28) as int, le32(b, 36) as int, le32(b, 40) as int, exb_signatures(b))
    &&& v == 2 ==> forall|c: int|
        0 <= c < n ==> #[trigger] command_end(b, c) <= m
}

/// Whether `e` is what the EXB file `b` holds.
pub open spec fn exb_is(b: Seq<u8>, e: Exb) -> bool {
    let info = le32(b, 24) as int;
    &&& e.info.magic@ == "EXB "@
    &&& e.info.version == le32(b, 4)
    &&& e.info.static_memory_size == le32(b, 8)
    &&& e.info.instance_count == le32(b, 12)
    &&& e.info.scratch32_size == le32(b, 16)
    &&& e.info.scratch64_size == le32(b, 20)
    &&& e.commands.len() == le32(b, info)
    &&& forall|c: int| 0 <= c < e.commands.len() ==> command_is(b, c, #[trigger] e.commands[c])
}

/// The signature offsets in the table at `at`.
fn read_signatures(data: &[u8], at: usize) -> (r: Result<Vec<usize>, Error>)
    ensures
        r is Ok <==> signatures_ok(data@, at as int),
        r matches Ok(v) ==> v@ == signatures_at(data@, at as int),
{
    let ghost b = data@;
    let len = data.len();
    let count = word_at(data, at)?;
    let mut out: Vec<usize> = Vec::new();
    let mut p: usize = at + 4;
    let mut i: u32 = 0;
    while i < count
        invariant
            b == data@,
            len == b.len(),
            count == le32(b, at as int),
            at + 4 <= len,
            i <= count,
            p == at + 4 + 4 * i,
            p <= len,
            out@ =~= signatures_at(b, at as int).subrange(0, i as int),
        decreases count - i,
    {
        if p > len || len - p < 4 {
            return Err(crate::error::eof("EXB signature table past end of input"));
        }
        let v = word_at(data, p)?;
        out.push(v as usize);
        p = p + 4;
        i = i + 1;
    }
    assert(out@ =~= signatures_at(b, at as int));
    Ok(out)
}

/// The command records of the table at `info`, in a file of the given version.
#[verifier::rlimit(40)]
fn read_records(data: &[u8], info: usize, version: u32) -> (r: Result<Vec<CommandRecord>, Error>)
    requires
        version == 1 || version == 2,
    ensures
        r is Ok <==> records_ok(data@, info as int, version),
        r matches Ok(v) ==> v.len() == le32(data@, info as int) && forall|c: int|
            0 <= c < v.len() ==> record_is(data@, record_at(info as int, version, c), version, #[trigger] v[c]),
{
    let ghost b = data@;
    let len = data.len();
    let reader = BinaryReader::new(data);
    let count = word_at(data, info)?;
    let size: usize = if version == 2 { 28 } else { 20 };
    let types: usize = if version == 2 { 24 } else { 16 };
    let mut out: Vec<CommandRecord> = Vec::new();
    let mut q: usize = info + 4;
    let mut c: u32 = 0;
    while c < count
        invariant
            b == data@,
            reader.bytes() == b,
            reader.order() == Endian::Little,
            len == b.len(),
            version == 1 || version == 2,
            size == record_size(version),
            types == record_types_at(version),
            count == le32(b, info as int),
            info + 4 <= len,
            c <= count,
            q == record_at(info as int, version, c as int),
            q <= len,
            out.len() == c,
            forall|k: int| 0 <= k < c ==> record_ok(b, #[trigger] record_at(info as int, version, k), version),
            forall|k: int| 0 <= k < c ==> record_is(b, record_at(info as int, version, k), version, #[trigger] out[k]),
        decreases count - c,
    {
        proof {
            assert(record_size(version) * (c + 1) == record_size(version) * c + record_size(version)) by (nonlinear_arith);
        }
        if len - q < size {
            proof {
                assert(record_size(version) * count >= record_size(version) * (c + 1)) by (nonlinear_arith)
                    requires
                        c + 1 <= count,
                        record_size(version) >= 0,
                ;
            }
            return Err(crate::error::eof("EXB command record past end of input"));
        }
        let base = to_i32(word_at(data, q)?);
        let (pre, start, instructions) = if version == 2 {
            let pre = word_at(data, q + 4)?;
            let start = word_at(data, q + 8)?;
            let n = word_at(data, q + 12)?;
            (Some(pre), start as usize, Some(n as usize))
        } else {
            let start = word_at(data, q + 4)?;
            (None, start as usize, None)
        };
        let output = DataType::from_u16(reader.read_u16_at(q + types)?)?;
        let input = DataType::from_u16(reader.read_u16_at(q + types + 2)?)?;
        out.push((base, pre, start, instructions, output, input));
        q = q + size;
        c = c + 1;
    }
    Ok(out)
}

/// The instructions of the table at `table`.
#[verifier::rlimit(40)]
fn read_instructions(
    data: &[u8],
    table: usize,
    parameter: usize,
    strings: usize,
    signatures: &[usize],
) -> (r: Result<Vec<Instruction>, Error>)
    ensures
        r is Ok <==> instructions_ok(data@, table as int, parameter as int, strings as int, signatures@),
        r matches Ok(v) ==> v.len() == le32(data@, table as int) && forall|k: int|
            0 <= k < v.len() ==> instruction_is(
                data@,
                table + 4 + 8 * k,
                parameter as int,
                strings as int,
                signatures@,
                #[trigger] v[k],
            ),
{
    let ghost b = data@;
    let len = data.len();
    let count = word_at(data, table)?;
    let mut out: Vec<Instruction> = Vec::new();
    let mut at: usize = table + 4;
    let mut k: u32 = 0;
    while k < count
        invariant
            b == data@,
            len == b.len(),
            count == le32(b, table as int),
            table + 4 <= len,
            k <= count,
            at == table + 4 + 8 * k,
            at <= len,
            out.len() == k,
            forall|j: int|
                0 <= j < k ==> #[trigger] instruction_ok(
                    b,
                    table + 4 + 8 * j,
                    parameter as int,
                    strings as int,
                    signatures@,
                ),
            forall|j: int|
                0 <= j < k ==> instruction_is(
                    b,
                    table + 4 + 8 * j,
                    parameter as int,
                    strings as int,
                    signatures@,
                    #[trigger] out[j],
                ),
        decreases count - k,
    {
        let i = read_instruction(data, at, parameter, strings, signatures)?;
        out.push(i);
        at = at + 8;
        k = k + 1;
    }
    Ok(out)
}

/// Copies of the instructions from `start` up to `end`.
fn copy_range(v: &Vec<Instruction>, start: usize, end: usize) -> (r: Vec<Instruction>)
    requires
        start <= end <= v.len(),
    ensures
        r@ == v@.subrange(start as int, end as int),
{
    let mut out: Vec<Instruction> = Vec::new();
    let mut i = start;
    while i < end
        invariant
            start <= i <= end <= v.len(),
            out@ =~= v@.subrange(start as int, i as int),
        decreases end - i,
    {
        out.push(v[i].duplicate());
        i = i + 1;
    }
    out
}

impl Exb {
    /// Parses an EXB program. Fails on a wrong magic, a version other than 1 or 2, a
    /// table or string out of bounds, an unknown code, or (in version 2) a command
    /// whose instruction range exceeds the table. In version 1, where records give no
    /// instruction count, each command runs through the next terminator.
    #[verifier::rlimit(40)]
    pub fn from_bytes(data: &[u8]) -> (r: Result<Self, Error>)
        ensures
            r is Ok <==> exb_ok(data@),
            r matches Ok(e) ==> exb_is(data@, e),
    {
        let ghost b = data@;
        let reader = BinaryReader::new(data);
        let magic = reader.read_bytes_at(0, 4)?;
        if !(magic[0] == 0x45 && magic[1] == 0x58 && magic[2] == 0x42 && magic[3] == 0x20) {
            return Err(invalid("invalid EXB magic"));
        }
        let version = word_at(data, 4)?;
        if version != 1 && version != 2 {
            return Err(invalid("unsupported EXB version"));
        }
        let static_memory_size = word_at(data, 8)?;
        let instance_count = word_at(data, 12)?;
        let scratch32_size = word_at(data, 16)?;
        let scratch64_size = word_at(data, 20)?;
        let info_offset = word_at(data, 24)? as usize;
        let table_offset = word_at(data, 28)? as usize;
        let signature_offset = word_at(data, 32)? as usize;
        let parameter_offset = word_at(data, 36)? as usize;
        let string_offset = word_at(data, 40)? as usize;
        let signatures = read_signatures(data, signature_offset)?;
        let records = read_records(data, info_offset, version)?;
        let instructions = read_instructions(data, table_offset, parameter_offset, string_offset, signatures.as_slice())?;
        let ghost m = instructions.len() as int;
        assert(m == exb_instruction_count(b));
        let mut commands: Vec<CommandInfo> = Vec::new();
        let mut sequential: usize = 0;
        let mut c: usize = 0;
        while c < records.len()
            invariant
                b == data@,
                version == le32(b, 4),
                version == 1 || version == 2,
                info_offset == le32(b, 24),
                table_offset == le32(b, 28),
                signatures@ == exb_signatures(b),
                parameter_offset == le32(b, 36),
                string_offset == le32(b, 40),
                m == instructions.len(),
                m == exb_instruction_count(b),
                records.len() == le32(b, info_offset as int),
                forall|k: int|
                    0 <= k < records.len() ==> record_is(
                        b,
                        record_at(info_offset as int, version, k),
                        version,
                        #[trigger] records[k],
                    ),
                forall|k: int|
                    0 <= k < m ==> instruction_is(
                        b,
                        table_offset + 4 + 8 * k,
                        parameter_offset as int,
                        string_offset as int,
                        signatures@,
                        #[trigger] instructions[k],
                    ),
                instructions_ok(b, table_offset as int, parameter_offset as int, string_offset as int, signatures@),
                m == le32(b, table_offset as int),
                c <= records.len(),
                version == 1 ==> sequential == sequential_start(b, c as int),
                sequential <= m,
                commands.len() == c,
                forall|k: int| 0 <= k < c ==> command_is(b, k, #[trigger] commands[k]),
                version == 2 ==> forall|k: int| 0 <= k < c ==> #[trigger] command_end(b, k) <= m,
            decreases records.len() - c,
        {
            let (base, pre, start, count, output, input) = records[c];
            assert(record_is(b, record_at(info_offset as int, version, c as int), version, records[c as int]));
            let list = match count {
                Some(count) => {
                    if count > instructions.len() || start > instructions.len() - count {
                        assert(!(command_end(b, c as int) <= m));
                        return Err(invalid("EXB instruction range exceeds table"));
                    }
                    copy_range(&instructions, start, start + count)
                },
                None => {
                    let begin = sequential;
                    let mut done = false;
                    while !done && sequential < instructions.len()
                        invariant
                            b == data@,
                            version == 1,
                            table_offset == le32(b, 28),
                            m == instructions.len(),
                            m == exb_instruction_count(b),
                            forall|k: int|
                                0 <= k < m ==> instruction_is(
                                    b,
                                    table_offset + 4 + 8 * k,
                                    parameter_offset as int,
                                    string_offset as int,
                                    signatures@,
                                    #[trigger] instructions[k],
                                ),
                            begin <= sequential <= m,
                            instructions_ok(b, table_offset as int, parameter_offset as int, string_offset as int, signatures@),
                            m == le32(b, table_offset as int),
                            sequential_end(b, begin as int) == (if done {
                                sequential as int
                            } else {
                                sequential_end(b, sequential as int)
                            }),
                        decreases m - sequential,
                    {
                        assert(instruction_is(
                            b,
                            table_offset + 4 + 8 * sequential,
                            parameter_offset as int,
                            string_offset as int,
                            signatures@,
                            instructions[sequential as int],
                        ));
                        assert(instruction_ok(
                            b,
                            table_offset + 4 + 8 * sequential,
                            parameter_offset as int,
                            string_offset as int,
                            signatures@,
                        ));
                        done = instructions[sequential].opcode == Opcode::Terminator;
                        sequential = sequential + 1;
                    }
                    copy_range(&instructions, begin, sequential)
                },
            };
            commands.push(CommandInfo {
                base_index_pre_command_entry: base,
                pre_entry_static_memory_usage: pre,
                output_data_type: output,
                input_data_type: input,
                instructions: list,
            });
            c = c + 1;
        }
        Ok(Exb {
            info: ExbInfo {
                magic: String::from_str("EXB "),
                version,
                static_memory_size,
                instance_count,
                scratch32_size,
                scratch64_size,
            },
            commands,
        })
    }
}

/// The regions of memory that an EXB program uses.
#[derive(Clone, Copy, Debug, PartialEq, Eq, Structural)]
pub enum Region {
    Static,
    Scratch32,
    Scratch64,
}

/// Whether operands from `source` lie in `region`.
pub open spec fn in_region(source: Source, region: Region) -> bool {
    match region {
        Region::Static => source == Source::StaticMem,
        Region::Scratch32 => source == Source::Scratch32,
        Region::Scratch64 => source == Source::Scratch64,
    }
}

/// The bytes of a value of the instruction's data type; an instruction without one
/// counts as four.
pub open spec fn value_size(i: Instruction) -> int {
    if i.data_type == Some(DataType::Vec3f) {
        12
    } else {
        4
    }
}

/// How far into `region` an operand reaches: its index plus the value size, or
/// nothing when it lies elsewhere.
pub open spec fn operand_reach(i: Instruction, source: Option<Source>, index: Option<u16>, region: Region) -> int {
    match (source, index) {
        (Some(s), Some(x)) => if in_region(s, region) {
            x + value_size(i)
        } else {
            0
        },
        _ => 0,
    }
}

/// How far into `region` one instruction reaches: through either operand, and for
/// static memory also through a user function's static slot.
pub open spec fn instruction_reach(i: Instruction, region: Region) -> int {
    let a = operand_reach(i, i.lhs_source, i.lhs_index, region);
    let b = operand_reach(i, i.rhs_source, i.rhs_index, region);
    let c = match i.static_memory_index {
        Some(x) => if region == Region::Static {
            x + value_size(i)
        } else {
            0
        },
        None => 0,
    };
    vstd::math::max(vstd::math::max(a, b), c)
}

/// How far into `region` any of the instructions reaches.
pub open spec fn memory_reach(s: Seq<Instruction>, region: Region) -> int
    decreases s.len(),
{
    if s.len() == 0 {
        0
    } else {
        vstd::math::max(memory_reach(s.drop_last(), region), instruction_reach(s.last(), region))
    }
}

/// The larger of two sizes.
fn larger(a: u32, b: u32) -> (r: u32)
    ensures
        r == vstd::math::max(a as int, b as int),
{
    if a < b {
        b
    } else {
        a
    }
}

/// How far into `region` one instruction reaches.
fn reach_of(i: &Instruction, region: Region) -> (r: u32)
    ensures
        r == instruction_reach(*i, region),
{
    let size: u32 = match i.data_type {
        Some(DataType::Vec3f) => 12,
        _ => 4,
    };
    let mut out: u32 = 0;
    if let (Some(source), Some(index)) = (i.lhs_source, i.lhs_index) {
        let inside = match region {
            Region::Static => source == Source::StaticMem,
            Region::Scratch32 => source == Source::Scratch32,
            Region::Scratch64 => source == Source::Scratch64,
        };
        if inside {
            out = index as u32 + size;
        }
    }
    if let (Some(source), Some(index)) = (i.rhs_source, i.rhs_index) {
        let inside = match region {
            Region::Static => source == Source::StaticMem,
            Region::Scratch32 => source == Source::Scratch32,
            Region::Scratch64 => source == Source::Scratch64,
        };
        if inside {
            out = larger(out, index as u32 + size);
        }
    }
    if let Some(index) = i.static_memory_index {
        if region == Region::Static {
            out = larger(out, index as u32 + size);
        }
    }
    out
}

/// The static memory, 32-bit scratch and 64-bit scratch sizes that the instructions
/// need: for each region, the furthest that an operand in it reaches.
pub fn memory_sizes(instructions: &[Instruction]) -> (r: (u32, u32, u32))
    ensures
        r.0 == memory_reach(instructions@, Region::Static),
        r.1 == memory_reach(instructions@, Region::Scratch32),
        r.2 == memory_reach(instructions@, Region::Scratch64),
{
    let mut a: u32 = 0;
    let mut b: u32 = 0;
    let mut c: u32 = 0;
    let mut k: usize = 0;
    while k < instructions.len()
        invariant
            k <= instructions.len(),
            a == memory_reach(instructions@.subrange(0, k as int), Region::Static),
            b == memory_reach(instructions@.subrange(0, k as int), Region::Scratch32),
            c == memory_reach(instructions@.subrange(0, k as int), Region::Scratch64),
        decreases instructions.len() - k,
    {
        let ghost before = instructions@.subrange(0, k as int);
        let ghost after = instructions@.subrange(0, k + 1);
        assert(after.drop_last() =~= before);
        assert(after.last() == instructions@[k as int]);
        a = larger(a, reach_of(&instructions[k], Region::Static));
        b = larger(b, reach_of(&instructions[k], Region::Scratch32));
        c = larger(c, reach_of(&instructions[k], Region::Scratch64));
        k = k + 1;
    }
    assert(instructions@.subrange(0, instructions.len() as int) =~= instructions@);
    (a, b, c)
}

} // verus!
