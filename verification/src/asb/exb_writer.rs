use vstd::prelude::*;
use crate::aoc::g1m::replace::{push_u16, push_u32};
use crate::asb::data_type::{data_type_code, data_type_from_code, lemma_data_type_code_roundtrip, DataType};
use crate::asb::exb::{le16, le32, memory_reach, memory_sizes, record_is, record_size, CommandInfo, Exb, Region};
use crate::asb::instruction::{ExbValue, Instruction};
use crate::asb::opcode::{lemma_opcode_code_roundtrip, opcode_code, opcode_from_code, Opcode};
use crate::asb::source::{lemma_source_code_roundtrip, source_code, source_from_code, Source};
use crate::binary::{bits32, encode_u16, encode_u32, from_i32, lemma_signed_roundtrip, lemma_u16_roundtrip, lemma_u32_roundtrip, Endian};
use crate::error::Error;
use crate::text::str_eq;
use vstd::string::StringSliceAdditionalSpecFns;

verus! {

/// `d` with `v` written at `at`, as a seekable writer does: bytes there are replaced,
/// and a gap past the end is filled with zeros.
pub open spec fn written_at(d: Seq<u8>, at: int, v: Seq<u8>) -> Seq<u8> {
    let n = if d.len() > at + v.len() {
        d.len() as int
    } else {
        at + v.len()
    };
    Seq::new(
        n as nat,
        |i: int|
            if at <= i < at + v.len() {
                v[i - at]
            } else if i < d.len() {
                d[i]
            } else {
                0u8
            },
    )
}

/// Writes `v` at `at` of `out`, replacing what is there and filling any gap past the
/// end with zeros.
fn write_at(out: &mut Vec<u8>, at: usize, v: &[u8])
    requires
        at + v@.len() <= usize::MAX,
    ensures
        final(out)@ == written_at(old(out)@, at as int, v@),
{
    let ghost d = out@;
    while out.len() < at
        invariant
            out@.len() <= at || out@.len() == d.len(),
            out@.len() >= d.len(),
            forall|i: int| 0 <= i < out@.len() ==> #[trigger] out@[i] == if i < d.len() { d[i] } else { 0u8 },
        decreases at - out@.len(),
    {
        out.push(0);
    }
    let mut j: usize = 0;
    while j < v.len()
        invariant
            j <= v@.len(),
            at + v@.len() <= usize::MAX,
            out@.len() == if d.len() > at + j { d.len() as int } else if d.len() > at { (at + j) as int } else { (at + j) as int },
            out@.len() >= at,
            forall|i: int|
                0 <= i < out@.len() ==> #[trigger] out@[i] == if at <= i < at + j {
                    v@[i - at]
                } else if i < d.len() {
                    d[i]
                } else {
                    0u8
                },
        decreases v@.len() - j,
    {
        if at + j < out.len() {
            out.set(at + j, v[j]);
        } else {
            out.push(v[j]);
        }
        j = j + 1;
    }
    assert(out@ =~= written_at(d, at as int, v@));
}

/// The text of an instruction's signature, empty when it has none.
pub open spec fn sig_text(i: Instruction) -> Seq<char> {
    match i.signature {
        Some(s) => s@,
        None => Seq::empty(),
    }
}

/// The distinct signatures of the user-function calls among `flat`, in order of first
/// use.
pub open spec fn sigs_of(flat: Seq<Instruction>) -> Seq<Seq<char>>
    decreases flat.len(),
{
    if flat.len() == 0 {
        Seq::empty()
    } else {
        let s = sigs_of(flat.drop_last());
        let i = flat.last();
        if i.opcode == Opcode::UserFunction && !s.contains(sig_text(i)) {
            s.push(sig_text(i))
        } else {
            s
        }
    }
}

/// The first index of `x` in `s`.
pub open spec fn index_in(s: Seq<Seq<char>>, x: Seq<char>, from: int) -> int
    decreases s.len() - from,
{
    if from < 0 || from >= s.len() {
        s.len() as int
    } else if s[from] == x {
        from
    } else {
        index_in(s, x, from + 1)
    }
}

/// The string value an operand carries, if it carries one.
pub open spec fn string_of(v: Option<ExbValue>) -> Seq<Seq<char>> {
    match v {
        Some(ExbValue::String(s)) => seq![s@],
        _ => Seq::empty(),
    }
}

/// The eight bytes of an instruction: its opcode, then for a terminator seven zero
/// bytes; else its data type (unset when it has none) and, for a user function, its
/// static memory slot and the index of its signature among `sigs`, for any other
/// its two sources (immediate when missing) and their two indices (zero when missing).
pub open spec fn instruction_bytes(i: Instruction, sigs: Seq<Seq<char>>) -> Seq<u8> {
    let e = Endian::Little;
    if i.opcode == Opcode::Terminator {
        seq![opcode_code(i.opcode), 0u8, 0u8, 0u8, 0u8, 0u8, 0u8, 0u8]
    } else {
        let ty = match i.data_type {
            Some(t) => t,
            None => DataType::Unset,
        };
        let head = seq![opcode_code(i.opcode), data_type_code(ty) as u8];
        if i.opcode == Opcode::UserFunction {
            head + encode_u16(
                match i.static_memory_index {
                    Some(x) => x,
                    None => 0u16,
                },
                e,
            ) + encode_u32(index_in(sigs, sig_text(i), 0) as u32, e)
        } else {
            head + seq![
                source_code(
                    match i.lhs_source {
                        Some(s) => s,
                        None => Source::Imm,
                    },
                ),
                source_code(
                    match i.rhs_source {
                        Some(s) => s,
                        None => Source::Imm,
                    },
                ),
            ] + encode_u16(
                match i.lhs_index {
                    Some(x) => x,
                    None => 0u16,
                },
                e,
            ) + encode_u16(
                match i.rhs_index {
                    Some(x) => x,
                    None => 0u16,
                },
                e,
            )
        }
    }
}

/// Reading back the eight bytes written for an instruction gives its opcode; unless it
/// is a terminator, its data type (unset when it had none); for a user function its
/// static memory slot (zero when it had none) and the signature index; for any other
/// its two sources (immediate when missing) and two indices (zero when missing).
pub proof fn lemma_instruction_reads_back(i: Instruction, sigs: Seq<Seq<char>>)
    ensures
        ({
            let b = instruction_bytes(i, sigs);
            let ty = match i.data_type {
                Some(t) => t,
                None => DataType::Unset,
            };
            &&& b.len() == 8
            &&& opcode_from_code(b[0]) == Some(i.opcode)
            &&& i.opcode != Opcode::Terminator ==> data_type_from_code(b[1] as u16) == Some(ty)
            &&& i.opcode == Opcode::UserFunction ==> le16(b, 2) == (match i.static_memory_index {
                Some(x) => x,
                None => 0u16,
            }) && le32(b, 4) == index_in(sigs, sig_text(i), 0) as u32
            &&& i.opcode != Opcode::Terminator && i.opcode != Opcode::UserFunction ==> {
                &&& source_from_code(b[2]) == Some(match i.lhs_source {
                    Some(s) => s,
                    None => Source::Imm,
                })
                &&& source_from_code(b[3]) == Some(match i.rhs_source {
                    Some(s) => s,
                    None => Source::Imm,
                })
                &&& le16(b, 4) == (match i.lhs_index {
                    Some(x) => x,
                    None => 0u16,
                })
                &&& le16(b, 6) == (match i.rhs_index {
                    Some(x) => x,
                    None => 0u16,
                })
            }
        }),
{
    let e = Endian::Little;
    let b = instruction_bytes(i, sigs);
    let ty = match i.data_type {
        Some(t) => t,
        None => DataType::Unset,
    };
    lemma_opcode_code_roundtrip(i.opcode, 0u8);
    lemma_data_type_code_roundtrip(ty, 0u16);
    assert(data_type_code(ty) <= 6);
    if i.opcode != Opcode::Terminator {
        let head = seq![opcode_code(i.opcode), data_type_code(ty) as u8];
        if i.opcode == Opcode::UserFunction {
            let x = match i.static_memory_index {
                Some(x) => x,
                None => 0u16,
            };
            let k = index_in(sigs, sig_text(i), 0) as u32;
            lemma_u16_roundtrip(x, e);
            lemma_u32_roundtrip(k, e);
            assert(b == head + encode_u16(x, e) + encode_u32(k, e));
            assert(b.subrange(2, 4) =~= encode_u16(x, e));
            assert(b.subrange(4, 8) =~= encode_u32(k, e));
        } else {
            let l = match i.lhs_source {
                Some(s) => s,
                None => Source::Imm,
            };
            let r = match i.rhs_source {
                Some(s) => s,
                None => Source::Imm,
            };
            let x = match i.lhs_index {
                Some(x) => x,
                None => 0u16,
            };
            let y = match i.rhs_index {
                Some(x) => x,
                None => 0u16,
            };
            lemma_source_code_roundtrip(l, 0u8);
            lemma_source_code_roundtrip(r, 0u8);
            lemma_u16_roundtrip(x, e);
            lemma_u16_roundtrip(y, e);
            assert(b == head + seq![source_code(l), source_code(r)] + encode_u16(x, e) + encode_u16(y, e));
            assert(b.subrange(4, 6) =~= encode_u16(x, e));
            assert(b.subrange(6, 8) =~= encode_u16(y, e));
        }
    }
}

/// The strings an instruction's writing sets aside for the string pool: a user
/// function's signature, or the string values of its operands.
pub open spec fn instruction_strings(i: Instruction) -> Seq<Seq<char>> {
    if i.opcode == Opcode::Terminator {
        Seq::empty()
    } else if i.opcode == Opcode::UserFunction {
        seq![sig_text(i)]
    } else {
        string_of(i.lhs_value) + string_of(i.rhs_value)
    }
}

/// The texts of strings.
pub open spec fn texts(v: Seq<String>) -> Seq<Seq<char>> {
    v.map_values(|s: String| s@)
}

/// The instruction table of `flat`: each instruction's bytes, a user function naming
/// its signature by its index among those used so far.
pub open spec fn table_bytes(flat: Seq<Instruction>) -> Seq<u8>
    decreases flat.len(),
{
    if flat.len() == 0 {
        Seq::empty()
    } else {
        table_bytes(flat.drop_last()) + instruction_bytes(flat.last(), sigs_of(flat))
    }
}

/// The strings that writing the instructions of `flat` sets aside, in order.
pub open spec fn table_strings(flat: Seq<Instruction>) -> Seq<Seq<char>>
    decreases flat.len(),
{
    if flat.len() == 0 {
        Seq::empty()
    } else {
        table_strings(flat.drop_last()) + instruction_strings(flat.last())
    }
}

/// The index of `value` among `list`, appending it when it is not there.
fn index_or_push(list: &mut Vec<String>, value: &String) -> (r: usize)
    ensures
        texts(final(list)@) == if texts(old(list)@).contains(value@) {
            texts(old(list)@)
        } else {
            texts(old(list)@).push(value@)
        },
        r == index_in(texts(final(list)@), value@, 0),
        r < final(list)@.len(),
{
    let ghost t = texts(list@);
    let mut k: usize = 0;
    while k < list.len()
        invariant
            k <= list@.len(),
            t == texts(list@),
            list@ == old(list)@,
            index_in(t, value@, 0) == index_in(t, value@, k as int),
            forall|j: int| 0 <= j < k ==> t[j] != value@,
        decreases list@.len() - k,
    {
        if str_eq(list[k].as_str(), value.as_str()) {
            assert(t.contains(value@)) by {
                assert(t[k as int] == value@);
            }
            return k;
        }
        k = k + 1;
    }
    assert(!t.contains(value@)) by {
        if t.contains(value@) {
            let j = choose|j: int| 0 <= j < t.len() && t[j] == value@;
        }
    }
    list.push(value.clone());
    proof {
        let nt = texts(list@);
        assert(nt =~= t.push(value@));
        lemma_index_in_last(t, value@, 0);
    }
    list.len() - 1
}

proof fn lemma_index_in_last(t: Seq<Seq<char>>, x: Seq<char>, from: int)
    requires
        0 <= from <= t.len(),
        forall|j: int| from <= j < t.len() ==> t[j] != x,
    ensures
        index_in(t.push(x), x, from) == t.len(),
    decreases t.len() - from,
{
    if from < t.len() {
        assert(t.push(x)[from] == t[from]);
        lemma_index_in_last(t, x, from + 1);
    } else {
        assert(t.push(x)[from] == x);
    }
}

/// The string of an optional value, when it is one.
fn push_string_of(strings: &mut Vec<String>, v: &Option<ExbValue>)
    ensures
        texts(final(strings)@) == texts(old(strings)@) + string_of(*v),
{
    match v {
        Some(ExbValue::String(s)) => {
            strings.push(s.clone());
            assert(texts(strings@) =~= texts(old(strings)@) + string_of(*v));
        },
        _ => {
            assert(texts(strings@) =~= texts(old(strings)@) + string_of(*v));
        },
    }
}

/// Writes one instruction, noting its signature among `signatures` and setting aside
/// its strings.
fn write_instruction(out: &mut Vec<u8>, i: &Instruction, signatures: &mut Vec<String>, strings: &mut Vec<String>)
    ensures
        texts(final(signatures)@) == if i.opcode == Opcode::UserFunction && !texts(old(signatures)@).contains(
            sig_text(*i),
        ) {
            texts(old(signatures)@).push(sig_text(*i))
        } else {
            texts(old(signatures)@)
        },
        final(out)@ == old(out)@ + instruction_bytes(*i, texts(final(signatures)@)),
        texts(final(strings)@) == texts(old(strings)@) + instruction_strings(*i),
{
    let e = Endian::Little;
    out.push(i.opcode.as_u8());
    if i.opcode == Opcode::Terminator {
        let mut k: usize = 0;
        while k < 7
            invariant
                k <= 7,
                out@ == old(out)@.push(opcode_code(i.opcode)) + Seq::new(k as nat, |j: int| 0u8),
            decreases 7 - k,
        {
            out.push(0);
            k = k + 1;
            assert(out@ =~= old(out)@.push(opcode_code(i.opcode)) + Seq::new(k as nat, |j: int| 0u8));
        }
        assert(out@ =~= old(out)@ + instruction_bytes(*i, texts(signatures@)));
        assert(texts(strings@) =~= texts(old(strings)@) + instruction_strings(*i));
        return;
    }
    let ty = match i.data_type {
        Some(t) => t,
        None => DataType::Unset,
    };
    out.push(ty.as_u16() as u8);
    if i.opcode == Opcode::UserFunction {
        push_u16(
            out,
            match i.static_memory_index {
                Some(x) => x,
                None => 0,
            },
            e,
        );
        let signature = match &i.signature {
            Some(s) => s.clone(),
            None => String::new(),
        };
        assert(signature@ == sig_text(*i));
        let index = index_or_push(signatures, &signature);
        strings.push(signature);
        push_u32(out, index as u32, e);
        assert(out@ =~= old(out)@ + instruction_bytes(*i, texts(signatures@)));
        assert(texts(strings@) =~= texts(old(strings)@) + instruction_strings(*i));
    } else {
        out.push(
            match i.lhs_source {
                Some(s) => s,
                None => Source::Imm,
            }.as_u8(),
        );
        out.push(
            match i.rhs_source {
                Some(s) => s,
                None => Source::Imm,
            }.as_u8(),
        );
        push_u16(
            out,
            match i.lhs_index {
                Some(x) => x,
                None => 0,
            },
            e,
        );
        push_u16(
            out,
            match i.rhs_index {
                Some(x) => x,
                None => 0,
            },
            e,
        );
        assert(out@ =~= old(out)@ + instruction_bytes(*i, texts(signatures@)));
        push_string_of(strings, &i.lhs_value);
        push_string_of(strings, &i.rhs_value);
        assert(texts(strings@) =~= texts(old(strings)@) + instruction_strings(*i));
    }
}

/// The bytes a parameter value takes in the parameter table: a word for a truth value,
/// an integer or a float, three for a vector; a string takes a zero word when read
/// through the string-table source, else none.
pub open spec fn value_bytes(v: ExbValue, source: Source) -> Seq<u8> {
    let e = Endian::Little;
    match v {
        ExbValue::Bool(b) => encode_u32(if b { 1u32 } else { 0u32 }, e),
        ExbValue::Integer(x) => encode_u32(x, e),
        ExbValue::Float(bits) => encode_u32(bits, e),
        ExbValue::Vec3f(a) => encode_u32(a@[0], e) + encode_u32(a@[1], e) + encode_u32(a@[2], e),
        ExbValue::String(_) => if source == Source::ParamTblStr {
            encode_u32(0, e)
        } else {
            Seq::empty()
        },
    }
}

/// What writing an operand into the parameter table does, when it reads the table:
/// where it goes, its bytes, and the string it sets aside.
pub open spec fn operand_write(source: Option<Source>, index: Option<u16>, value: Option<ExbValue>) -> Option<(int, Seq<u8>, Seq<Seq<char>>)> {
    match (source, index, value) {
        (Some(s), Some(x), Some(v)) => if s == Source::ParamTbl || s == Source::ParamTblStr {
            Some((x as int, value_bytes(v, s), string_of(Some(v))))
        } else {
            None
        },
        _ => None,
    }
}

/// The parameter table state after one operand write: the output, where the table
/// reaches, and the strings set aside.
pub open spec fn param_step(st: (Seq<u8>, int, Seq<Seq<char>>), table: int, w: Option<(int, Seq<u8>, Seq<Seq<char>>)>) -> (
    Seq<u8>,
    int,
    Seq<Seq<char>>,
) {
    match w {
        Some((x, bytes, strs)) => (
            written_at(st.0, table + x, bytes),
            if st.1 > table + x + bytes.len() { st.1 } else { table + x + bytes.len() },
            st.2 + strs,
        ),
        None => st,
    }
}

/// The parameter table state after the operands of the instructions `flat`, each
/// instruction's left operand before its right.
pub open spec fn params_after(st: (Seq<u8>, int, Seq<Seq<char>>), table: int, flat: Seq<Instruction>) -> (
    Seq<u8>,
    int,
    Seq<Seq<char>>,
)
    decreases flat.len(),
{
    if flat.len() == 0 {
        st
    } else {
        let i = flat.last();
        let before = params_after(st, table, flat.drop_last());
        param_step(
            param_step(before, table, operand_write(i.lhs_source, i.lhs_index, i.lhs_value)),
            table,
            operand_write(i.rhs_source, i.rhs_index, i.rhs_value),
        )
    }
}

/// The bytes of an operand value in the parameter table.
fn value_out(v: &ExbValue, source: Source) -> (r: Vec<u8>)
    ensures
        r@ == value_bytes(*v, source),
{
    let e = Endian::Little;
    let mut out: Vec<u8> = Vec::new();
    match v {
        ExbValue::Bool(b) => push_u32(&mut out, if *b { 1 } else { 0 }, e),
        ExbValue::Integer(x) => push_u32(&mut out, *x, e),
        ExbValue::Float(bits) => push_u32(&mut out, *bits, e),
        ExbValue::Vec3f(a) => {
            push_u32(&mut out, a[0], e);
            push_u32(&mut out, a[1], e);
            push_u32(&mut out, a[2], e);
        },
        ExbValue::String(_) => {
            if source == Source::ParamTblStr {
                push_u32(&mut out, 0, e);
            }
        },
    }
    assert(out@ =~= value_bytes(*v, source));
    out
}

/// Writes one operand into the parameter table at `table`, when it reads the table.
fn write_operand(
    out: &mut Vec<u8>,
    end: &mut usize,
    strings: &mut Vec<String>,
    table: usize,
    source: Option<Source>,
    index: Option<u16>,
    value: &Option<ExbValue>,
)
    requires
        table <= *old(end) <= table + 0x1_0010,
        table + 0x1_0010 <= usize::MAX,
    ensures
        ({
            let st = param_step((old(out)@, *old(end) as int, texts(old(strings)@)), table as int, operand_write(source, index, *value));
            &&& final(out)@ == st.0
            &&& *final(end) == st.1
            &&& texts(final(strings)@) == st.2
        }),
        *old(end) <= *final(end) <= table + 0x1_0010,
{
    match (source, index, value) {
        (Some(s), Some(x), Some(v)) => {
            if s == Source::ParamTbl || s == Source::ParamTblStr {
                let bytes = value_out(v, s);
                let at = table + x as usize;
                write_at(out, at, bytes.as_slice());
                if at + bytes.len() > *end {
                    *end = at + bytes.len();
                }
                match v {
                    ExbValue::String(text) => {
                        strings.push(text.clone());
                    },
                    _ => {},
                }
                assert(texts(strings@) =~= texts(old(strings)@) + string_of(Some(*v)));
            }
        },
        _ => {},
    }
}

/// The strings of `s`, each once, in order of first appearance.
pub open spec fn uniq(s: Seq<Seq<char>>) -> Seq<Seq<char>>
    decreases s.len(),
{
    if s.len() == 0 {
        Seq::empty()
    } else {
        let u = uniq(s.drop_last());
        if u.contains(s.last()) {
            u
        } else {
            u.push(s.last())
        }
    }
}

/// The zero-terminated UTF-8 forms of the strings `u`, one after another.
pub open spec fn cstrings(u: Seq<Seq<char>>) -> Seq<u8>
    decreases u.len(),
{
    if u.len() == 0 {
        Seq::empty()
    } else {
        cstrings(u.drop_last()) + vstd::utf8::encode_utf8(u.last()) + seq![0u8]
    }
}

/// Where string `k` of `u` starts in their table (its low 32 bits).
pub open spec fn cstring_offset(u: Seq<Seq<char>>, k: int) -> u32 {
    (cstrings(u.take(k)).len() % 0x1_0000_0000) as u32
}

proof fn lemma_uniq_contains(s: Seq<Seq<char>>, x: Seq<char>)
    ensures
        uniq(s).contains(x) <==> s.contains(x),
    decreases s.len(),
{
    if s.len() > 0 {
        lemma_uniq_contains(s.drop_last(), x);
        if s.drop_last().contains(x) {
            let j = choose|j: int| 0 <= j < s.drop_last().len() && s.drop_last()[j] == x;
            assert(s[j] == x);
        }
        if s.contains(x) && x != s.last() {
            let j = choose|j: int| 0 <= j < s.len() && s[j] == x;
            assert(s.drop_last()[j] == x);
        }
        if x == s.last() {
            assert(s[s.len() - 1] == x);
        }
        let u = uniq(s.drop_last());
        if !u.contains(s.last()) {
            if u.push(s.last()).contains(x) && x != s.last() {
                let j = choose|j: int| 0 <= j < u.push(s.last()).len() && u.push(s.last())[j] == x;
                assert(u[j] == x);
            }
            if x == s.last() {
                assert(u.push(s.last())[u.len() as int] == x);
            }
            if u.contains(x) {
                let j = choose|j: int| 0 <= j < u.len() && u[j] == x;
                assert(u.push(s.last())[j] == x);
            }
        }
    }
}

/// The table of the distinct strings of `values` and where each starts in it.
fn string_table(values: &Vec<String>) -> (r: (Vec<u8>, Vec<(String, u32)>))
    ensures
        r.0@ == cstrings(uniq(texts(values@))),
        r.1@.len() == uniq(texts(values@)).len(),
        forall|k: int|
            0 <= k < r.1@.len() ==> (#[trigger] r.1@[k]).0@ == uniq(texts(values@))[k] && r.1@[k].1
                == cstring_offset(uniq(texts(values@)), k),
{
    let ghost t = texts(values@);
    let mut bytes: Vec<u8> = Vec::new();
    let mut table: Vec<(String, u32)> = Vec::new();
    let mut i: usize = 0;
    while i < values.len()
        invariant
            t == texts(values@),
            i <= values@.len(),
            bytes@ == cstrings(uniq(t.take(i as int))),
            table@.len() == uniq(t.take(i as int)).len(),
            forall|k: int|
                0 <= k < table@.len() ==> (#[trigger] table@[k]).0@ == uniq(t.take(i as int))[k] && table@[k].1
                    == cstring_offset(uniq(t.take(i as int)), k),
        decreases values@.len() - i,
    {
        let ghost u = uniq(t.take(i as int));
        let ghost nt = t.take(i + 1);
        assert(nt.drop_last() =~= t.take(i as int));
        assert(nt.last() == values@[i as int]@);
        let mut found = false;
        let mut k: usize = 0;
        while k < table.len() && !found
            invariant
                i < values@.len(),
                k <= table@.len(),
                table@.len() == u.len(),
                forall|j: int| 0 <= j < table@.len() ==> (#[trigger] table@[j]).0@ == u[j],
                !found ==> forall|j: int| 0 <= j < k ==> u[j] != values@[i as int]@,
                found ==> u.contains(values@[i as int]@),
            decreases table@.len() - k, if found { 0int } else { 1int },
        {
            if str_eq(table[k].0.as_str(), values[i].as_str()) {
                found = true;
                assert(u[k as int] == values@[i as int]@);
            } else {
                k = k + 1;
            }
        }
        if !found {
            assert(!u.contains(values@[i as int]@)) by {
                if u.contains(values@[i as int]@) {
                    let j = choose|j: int| 0 <= j < u.len() && u[j] == values@[i as int]@;
                }
            }
            let offset = (bytes.len() as u64 % 0x1_0000_0000) as u32;
            let ghost before = bytes@;
            let b = values[i].as_str().as_bytes();
            let mut j: usize = 0;
            while j < b.len()
                invariant
                    j <= b@.len(),
                    bytes@ == before + b@.subrange(0, j as int),
                decreases b@.len() - j,
            {
                bytes.push(b[j]);
                j = j + 1;
                assert(bytes@ =~= before + b@.subrange(0, j as int));
            }
            bytes.push(0);
            let ghost old_table = table@;
            table.push((values[i].clone(), offset));
            proof {
                let nu = u.push(values@[i as int]@);
                assert(b@.subrange(0, b@.len() as int) =~= b@);
                assert(nu.drop_last() =~= u);
                assert(bytes@ =~= cstrings(nu));
                assert(nu.take(u.len() as int) =~= u);
                assert forall|q: int| 0 <= q < table@.len() implies (#[trigger] table@[q]).0@ == nu[q] && table@[q].1
                    == cstring_offset(nu, q) by {
                    if q < old_table.len() {
                        assert(table@[q] == old_table[q]);
                        assert(nu.take(q) =~= u.take(q));
                    }
                }
            }
        }
        i = i + 1;
    }
    assert(t.take(values@.len() as int) =~= t);
    (bytes, table)
}

/// The offset of `value` in the string table, which holds it.
fn offset_in(table: &Vec<(String, u32)>, value: &String, Ghost(u): Ghost<Seq<Seq<char>>>) -> (r: u32)
    requires
        table@.len() == u.len(),
        forall|k: int| 0 <= k < table@.len() ==> (#[trigger] table@[k]).0@ == u[k] && table@[k].1 == cstring_offset(u, k),
        u.contains(value@),
    ensures
        r == cstring_offset(u, index_in(u, value@, 0)),
{
    let mut k: usize = 0;
    while k < table.len()
        invariant
            k <= table@.len(),
            table@.len() == u.len(),
            forall|q: int| 0 <= q < table@.len() ==> (#[trigger] table@[q]).0@ == u[q] && table@[q].1 == cstring_offset(u, q),
            index_in(u, value@, 0) == index_in(u, value@, k as int),
            forall|q: int| 0 <= q < k ==> u[q] != value@,
        decreases table@.len() - k,
    {
        if str_eq(table[k].0.as_str(), value.as_str()) {
            return table[k].1;
        }
        k = k + 1;
    }
    proof {
        let j = choose|j: int| 0 <= j < u.len() && u[j] == value@;
        assert(u[j] != value@);
    }
    0
}

/// The instructions of the commands, one command after another.
pub open spec fn flat_of(cmds: Seq<CommandInfo>) -> Seq<Instruction>
    decreases cmds.len(),
{
    if cmds.len() == 0 {
        Seq::empty()
    } else {
        flat_of(cmds.drop_last()) + cmds.last().instructions@
    }
}

/// The 28-byte record of a command whose instructions start at `start` of the table:
/// its base index, static memory use (zero when unknown), first instruction,
/// instruction count, the static memory, 32-bit and 64-bit scratch it reaches, and its
/// output and input types.
pub open spec fn record_bytes(c: CommandInfo, start: int) -> Seq<u8> {
    let e = Endian::Little;
    let i = c.instructions@;
    encode_u32(bits32(c.base_index_pre_command_entry), e) + encode_u32(
        match c.pre_entry_static_memory_usage {
            Some(x) => x,
            None => 0u32,
        },
        e,
    ) + encode_u32((start % 0x1_0000_0000) as u32, e) + encode_u32((i.len() % 0x1_0000_0000) as u32, e)
        + encode_u32(memory_reach(i, Region::Static) as u32, e) + encode_u16(
        (memory_reach(i, Region::Scratch32) % 0x1_0000) as u16,
        e,
    ) + encode_u16((memory_reach(i, Region::Scratch64) % 0x1_0000) as u16, e) + encode_u16(
        data_type_code(c.output_data_type),
        e,
    ) + encode_u16(data_type_code(c.input_data_type), e)
}

/// Reading back a written command record as a version-2 record gives the command's
/// base index, its static memory use (zero when unknown), where its instructions
/// start, their count, and its output and input types; the record is the size the
/// reader steps by.
pub proof fn lemma_record_reads_back(c: CommandInfo, start: int)
    requires
        0 <= start < 0x1_0000_0000,
        c.instructions@.len() < 0x1_0000_0000,
    ensures
        record_bytes(c, start).len() == record_size(2),
        record_is(
            record_bytes(c, start),
            0,
            2,
            (
                c.base_index_pre_command_entry,
                Some(
                    match c.pre_entry_static_memory_usage {
                        Some(x) => x,
                        None => 0u32,
                    },
                ),
                start as usize,
                Some(c.instructions@.len() as usize),
                c.output_data_type,
                c.input_data_type,
            ),
        ),
{
    let i = c.instructions@;
    let usage: u32 = match c.pre_entry_static_memory_usage {
        Some(x) => x,
        None => 0u32,
    };
    let a = bits32(c.base_index_pre_command_entry);
    let st = (start % 0x1_0000_0000) as u32;
    let n = (i.len() % 0x1_0000_0000) as u32;
    let m = memory_reach(i, Region::Static) as u32;
    let x = (memory_reach(i, Region::Scratch32) % 0x1_0000) as u16;
    let y = (memory_reach(i, Region::Scratch64) % 0x1_0000) as u16;
    let o = data_type_code(c.output_data_type);
    let q = data_type_code(c.input_data_type);
    assert(record_bytes(c, start) == record_words(a, usage, st, n, m, x, y, o, q));
    lemma_record_words(a, usage, st, n, m, x, y, o, q);
    lemma_signed_roundtrip(0i16, c.base_index_pre_command_entry);
    lemma_data_type_code_roundtrip(c.output_data_type, 0u16);
    lemma_data_type_code_roundtrip(c.input_data_type, 0u16);
}

/// The 28 bytes of a record from its five words and four half words.
spec fn record_words(a: u32, b: u32, s: u32, n: u32, m: u32, x: u16, y: u16, o: u16, q: u16) -> Seq<u8> {
    let e = Endian::Little;
    encode_u32(a, e) + encode_u32(b, e) + encode_u32(s, e) + encode_u32(n, e) + encode_u32(m, e) + encode_u16(x, e)
        + encode_u16(y, e) + encode_u16(o, e) + encode_u16(q, e)
}

proof fn lemma_record_words(a: u32, b: u32, s: u32, n: u32, m: u32, x: u16, y: u16, o: u16, q: u16)
    ensures
        ({
            let r = record_words(a, b, s, n, m, x, y, o, q);
            &&& r.len() == 28
            &&& le32(r, 0) == a
            &&& le32(r, 4) == b
            &&& le32(r, 8) == s
            &&& le32(r, 12) == n
            &&& le16(r, 24) == o
            &&& le16(r, 26) == q
        }),
{
    let e = Endian::Little;
    lemma_u32_roundtrip(a, e);
    lemma_u32_roundtrip(b, e);
    lemma_u32_roundtrip(s, e);
    lemma_u32_roundtrip(n, e);
    lemma_u32_roundtrip(m, e);
    lemma_u16_roundtrip(x, e);
    lemma_u16_roundtrip(y, e);
    lemma_u16_roundtrip(o, e);
    lemma_u16_roundtrip(q, e);
    let r = record_words(a, b, s, n, m, x, y, o, q);
    assert(r.subrange(0, 4) =~= encode_u32(a, e));
    assert(r.subrange(4, 8) =~= encode_u32(b, e));
    assert(r.subrange(8, 12) =~= encode_u32(s, e));
    assert(r.subrange(12, 16) =~= encode_u32(n, e));
    assert(r.subrange(24, 26) =~= encode_u16(o, e));
    assert(r.subrange(26, 28) =~= encode_u16(q, e));
}

/// The records of the first `k` commands.
pub open spec fn records_bytes(cmds: Seq<CommandInfo>, k: int) -> Seq<u8>
    decreases k,
{
    if k <= 0 {
        Seq::empty()
    } else {
        records_bytes(cmds, k - 1) + record_bytes(cmds[k - 1], flat_of(cmds.take(k - 1)).len() as int)
    }
}

/// The furthest that any of the first `k` commands reaches into `region`.
pub open spec fn max_reach(cmds: Seq<CommandInfo>, region: Region, k: int) -> int
    decreases k,
{
    if k <= 0 {
        0
    } else {
        vstd::math::max(max_reach(cmds, region, k - 1), memory_reach(cmds[k - 1].instructions@, region))
    }
}

/// The header, command records, instruction table and empty signature slots of the
/// program of `cmds`.
pub open spec fn exb_front(cmds: Seq<CommandInfo>) -> Seq<u8> {
    let e = Endian::Little;
    let flat = flat_of(cmds);
    let sigs = sigs_of(flat);
    seq![0x45u8, 0x58u8, 0x42u8, 0x20u8] + encode_u32(2, e) + Seq::new(36, |i: int| 0u8) + encode_u32(
        (cmds.len() % 0x1_0000_0000) as u32,
        e,
    ) + records_bytes(cmds, cmds.len() as int) + encode_u32((flat.len() % 0x1_0000_0000) as u32, e)
        + table_bytes(flat) + encode_u32((sigs.len() % 0x1_0000_0000) as u32, e) + Seq::new(
        (4 * sigs.len()) as nat,
        |i: int| 0u8,
    )
}

/// The data `d` with the first `n` signature slots from `slots` holding where their
/// signature starts in the string table `u`.
pub open spec fn sig_slots(d: Seq<u8>, slots: int, u: Seq<Seq<char>>, sigs: Seq<Seq<char>>, n: int) -> Seq<u8>
    decreases n,
{
    if n <= 0 {
        d
    } else {
        written_at(
            sig_slots(d, slots, u, sigs, n - 1),
            slots + 4 * (n - 1),
            encode_u32(cstring_offset(u, index_in(u, sigs[n - 1], 0)), Endian::Little),
        )
    }
}

/// The bytes of an EXB program written from `cmds`: version 2; after the header its
/// command records, its instruction table and its signature table; then the
/// parameter table, where each operand read from it is written at its index; then,
/// from where the parameter table ends, the string table of the strings set aside and
/// the signatures, each once; the signature table points into it, and the header
/// gives the memory the commands reach, `instance_count` and where each table starts.
pub open spec fn exb_bytes(cmds: Seq<CommandInfo>, instance_count: u32) -> Seq<u8> {
    let e = Endian::Little;
    let flat = flat_of(cmds);
    let sigs = sigs_of(flat);
    let front = exb_front(cmds);
    let t = 48 + 28 * (cmds.len() as int);
    let sg = t + 4 + 8 * (flat.len() as int);
    let p = front.len() as int;
    let params = params_after((front, p, Seq::empty()), p, flat);
    let u = uniq(table_strings(flat) + params.2 + sigs);
    let with_strings = written_at(params.0, params.1, cstrings(u));
    let slotted = sig_slots(with_strings, sg + 4, u, sigs, sigs.len() as int);
    written_at(
        slotted,
        8,
        encode_u32(max_reach(cmds, Region::Static, cmds.len() as int) as u32, e) + encode_u32(instance_count, e)
            + encode_u32(max_reach(cmds, Region::Scratch32, cmds.len() as int) as u32, e) + encode_u32(
            max_reach(cmds, Region::Scratch64, cmds.len() as int) as u32,
            e,
        ) + encode_u32(44, e) + encode_u32((t % 0x1_0000_0000) as u32, e) + encode_u32(
            (sg % 0x1_0000_0000) as u32,
            e,
        ) + encode_u32((p % 0x1_0000_0000) as u32, e) + encode_u32((params.1 % 0x1_0000_0000) as u32, e),
    )
}

proof fn lemma_flat_take(cmds: Seq<CommandInfo>, k: int)
    requires
        0 <= k < cmds.len(),
    ensures
        flat_of(cmds.take(k + 1)) == flat_of(cmds.take(k)) + cmds[k].instructions@,
{
    assert(cmds.take(k + 1).drop_last() =~= cmds.take(k));
}

/// Appends copies of `items` to `flat`.
fn append_copies(flat: &mut Vec<Instruction>, items: &Vec<Instruction>)
    ensures
        final(flat)@ == old(flat)@ + items@,
{
    let mut k: usize = 0;
    while k < items.len()
        invariant
            k <= items@.len(),
            flat@ == old(flat)@ + items@.take(k as int),
        decreases items@.len() - k,
    {
        flat.push(items[k].duplicate());
        k = k + 1;
        assert(flat@ =~= old(flat)@ + items@.take(k as int));
    }
    assert(items@.take(k as int) =~= items@);
}

/// Appends the record of `command`, whose instructions start at `start`; gives how
/// far they reach into each memory region.
fn write_record(out: &mut Vec<u8>, command: &CommandInfo, start: usize) -> (r: (u32, u32, u32))
    ensures
        final(out)@ == old(out)@ + record_bytes(*command, start as int),
        r.0 == memory_reach(command.instructions@, Region::Static),
        r.1 == memory_reach(command.instructions@, Region::Scratch32),
        r.2 == memory_reach(command.instructions@, Region::Scratch64),
{
    let e = Endian::Little;
    let (static_size, s32, s64) = memory_sizes(command.instructions.as_slice());
    push_u32(out, from_i32(command.base_index_pre_command_entry), e);
    push_u32(
        out,
        match command.pre_entry_static_memory_usage {
            Some(x) => x,
            None => 0,
        },
        e,
    );
    push_u32(out, (start as u64 % 0x1_0000_0000) as u32, e);
    push_u32(out, (command.instructions.len() as u64 % 0x1_0000_0000) as u32, e);
    push_u32(out, static_size, e);
    push_u16(out, (s32 % 0x1_0000) as u16, e);
    push_u16(out, (s64 % 0x1_0000) as u16, e);
    push_u16(out, command.output_data_type.as_u16(), e);
    push_u16(out, command.input_data_type.as_u16(), e);
    assert(out@ =~= old(out)@ + record_bytes(*command, start as int));
    (static_size, s32, s64)
}

/// Appends the command records, and gives the instructions of all commands in order
/// and the furthest they reach into static memory and the two scratch areas.
fn write_records(out: &mut Vec<u8>, cmds: &Vec<CommandInfo>) -> (r: (Vec<Instruction>, u32, u32, u32))
    ensures
        final(out)@ == old(out)@ + records_bytes(cmds@, cmds@.len() as int),
        r.0@ == flat_of(cmds@),
        r.1 == max_reach(cmds@, Region::Static, cmds@.len() as int),
        r.2 == max_reach(cmds@, Region::Scratch32, cmds@.len() as int),
        r.3 == max_reach(cmds@, Region::Scratch64, cmds@.len() as int),
{
    let mut flat: Vec<Instruction> = Vec::new();
    let mut max_static: u32 = 0;
    let mut max32: u32 = 0;
    let mut max64: u32 = 0;
    let mut c: usize = 0;
    assert(cmds@.take(0) =~= Seq::<CommandInfo>::empty());
    while c < cmds.len()
        invariant
            c <= cmds@.len(),
            out@ == old(out)@ + records_bytes(cmds@, c as int),
            flat@ == flat_of(cmds@.take(c as int)),
            max_static == max_reach(cmds@, Region::Static, c as int),
            max32 == max_reach(cmds@, Region::Scratch32, c as int),
            max64 == max_reach(cmds@, Region::Scratch64, c as int),
        decreases cmds@.len() - c,
    {
        let start = flat.len();
        let ghost before = out@;
        let (static_size, s32, s64) = write_record(out, &cmds[c], start);
        append_copies(&mut flat, &cmds[c].instructions);
        proof {
            lemma_flat_take(cmds@, c as int);
            assert(out@ =~= old(out)@ + records_bytes(cmds@, c + 1));
        }
        max_static = if max_static < static_size { static_size } else { max_static };
        max32 = if max32 < s32 { s32 } else { max32 };
        max64 = if max64 < s64 { s64 } else { max64 };
        c = c + 1;
    }
    assert(cmds@.take(cmds@.len() as int) =~= cmds@);
    (flat, max_static, max32, max64)
}

/// Appends the instruction table entries of `flat`, collecting the signatures they
/// use and the strings they set aside.
fn write_table(out: &mut Vec<u8>, flat: &Vec<Instruction>, signatures: &mut Vec<String>, strings: &mut Vec<String>)
    requires
        old(signatures)@.len() == 0,
        old(strings)@.len() == 0,
    ensures
        final(out)@ == old(out)@ + table_bytes(flat@),
        texts(final(signatures)@) == sigs_of(flat@),
        texts(final(strings)@) == table_strings(flat@),
{
    let mut i: usize = 0;
    assert(texts(signatures@) =~= Seq::<Seq<char>>::empty());
    assert(texts(strings@) =~= Seq::<Seq<char>>::empty());
    while i < flat.len()
        invariant
            i <= flat@.len(),
            out@ == old(out)@ + table_bytes(flat@.take(i as int)),
            texts(signatures@) == sigs_of(flat@.take(i as int)),
            texts(strings@) == table_strings(flat@.take(i as int)),
        decreases flat@.len() - i,
    {
        proof {
            let nt = flat@.take(i + 1);
            assert(nt.drop_last() =~= flat@.take(i as int));
            assert(nt.last() == flat@[i as int]);
        }
        write_instruction(out, &flat[i], signatures, strings);
        proof {
            assert(out@ =~= old(out)@ + table_bytes(flat@.take(i + 1)));
        }
        i = i + 1;
    }
    assert(flat@.take(flat@.len() as int) =~= flat@);
}

proof fn lemma_records_len(cmds: Seq<CommandInfo>, k: int)
    requires
        0 <= k,
    ensures
        records_bytes(cmds, k).len() == 28 * k,
    decreases k,
{
    if k > 0 {
        lemma_records_len(cmds, k - 1);
    }
}

proof fn lemma_table_len(flat: Seq<Instruction>)
    ensures
        table_bytes(flat).len() == 8 * flat.len(),
    decreases flat.len(),
{
    if flat.len() > 0 {
        lemma_table_len(flat.drop_last());
    }
}

/// Writes into the parameter table at `table` every operand of `flat` that reads it,
/// setting aside the strings among them; gives where the table ends.
fn write_params(out: &mut Vec<u8>, flat: &Vec<Instruction>, more: &mut Vec<String>, table: usize) -> (end: usize)
    requires
        table == old(out)@.len(),
        table + 0x1_0010 <= usize::MAX,
        old(more)@.len() == 0,
    ensures
        ({
            let st = params_after((old(out)@, table as int, Seq::empty()), table as int, flat@);
            &&& final(out)@ == st.0
            &&& end == st.1
            &&& texts(final(more)@) == st.2
        }),
        table <= end <= table + 0x1_0010,
{
    let mut end: usize = table;
    let mut i: usize = 0;
    assert(texts(more@) =~= Seq::<Seq<char>>::empty());
    while i < flat.len()
        invariant
            i <= flat@.len(),
            table + 0x1_0010 <= usize::MAX,
            table <= end <= table + 0x1_0010,
            ({
                let st = params_after((old(out)@, table as int, Seq::empty()), table as int, flat@.take(i as int));
                &&& out@ == st.0
                &&& end == st.1
                &&& texts(more@) == st.2
            }),
        decreases flat@.len() - i,
    {
        proof {
            let nt = flat@.take(i + 1);
            assert(nt.drop_last() =~= flat@.take(i as int));
            assert(nt.last() == flat@[i as int]);
        }
        let ins = &flat[i];
        write_operand(out, &mut end, more, table, ins.lhs_source, ins.lhs_index, &ins.lhs_value);
        write_operand(out, &mut end, more, table, ins.rhs_source, ins.rhs_index, &ins.rhs_value);
        i = i + 1;
    }
    assert(flat@.take(flat@.len() as int) =~= flat@);
    end
}

/// Appends copies of `items` to `all`.
fn append_strings(all: &mut Vec<String>, items: &Vec<String>)
    ensures
        texts(final(all)@) == texts(old(all)@) + texts(items@),
{
    let mut k: usize = 0;
    while k < items.len()
        invariant
            k <= items@.len(),
            texts(all@) == texts(old(all)@) + texts(items@.take(k as int)),
        decreases items@.len() - k,
    {
        let ghost before = all@;
        let c = items[k].clone();
        assert(c@ == items@[k as int]@);
        all.push(c);
        proof {
            assert(texts(all@) =~= texts(before).push(items@[k as int]@));
            assert(texts(items@.take(k + 1)) =~= texts(items@.take(k as int)).push(items@[k as int]@));
        }
        k = k + 1;
    }
    assert(items@.take(k as int) =~= items@);
}

proof fn lemma_params_grow(st: (Seq<u8>, int, Seq<Seq<char>>), table: int, flat: Seq<Instruction>)
    ensures
        params_after(st, table, flat).0.len() >= st.0.len(),
    decreases flat.len(),
{
    if flat.len() > 0 {
        lemma_params_grow(st, table, flat.drop_last());
    }
}

/// Whether the program of `cmds` fits in memory once written.
pub open spec fn exb_fits(cmds: Seq<CommandInfo>) -> bool {
    let flat = flat_of(cmds);
    let front = exb_front(cmds);
    let params = params_after((front, front.len() as int, Seq::empty()), front.len() as int, flat);
    let u = uniq(table_strings(flat) + params.2 + sigs_of(flat));
    front.len() + 0x1_0010 + cstrings(u).len() <= usize::MAX
}

/// The front of the program: header, command records, instruction table and empty
/// signature slots; with the instructions, the signatures they use, the strings they
/// set aside, and how far the commands reach into each memory region.
fn write_front(cmds: &Vec<CommandInfo>) -> (r: (Vec<u8>, Vec<Instruction>, Vec<String>, Vec<String>, u32, u32, u32))
    ensures
        r.0@ == exb_front(cmds@),
        r.1@ == flat_of(cmds@),
        texts(r.2@) == sigs_of(flat_of(cmds@)),
        texts(r.3@) == table_strings(flat_of(cmds@)),
        r.4 == max_reach(cmds@, Region::Static, cmds@.len() as int),
        r.5 == max_reach(cmds@, Region::Scratch32, cmds@.len() as int),
        r.6 == max_reach(cmds@, Region::Scratch64, cmds@.len() as int),
{
    let e = Endian::Little;
    let mut out: Vec<u8> = Vec::new();
    out.push(0x45);
    out.push(0x58);
    out.push(0x42);
    out.push(0x20);
    push_u32(&mut out, 2, e);
    let mut z: usize = 0;
    while z < 9
        invariant
            z <= 9,
            out@ == seq![0x45u8, 0x58u8, 0x42u8, 0x20u8] + encode_u32(2, e) + Seq::new((4 * z) as nat, |i: int| 0u8),
        decreases 9 - z,
    {
        push_u32(&mut out, 0, e);
        z = z + 1;
        assert(out@ =~= seq![0x45u8, 0x58u8, 0x42u8, 0x20u8] + encode_u32(2, e) + Seq::new((4 * z) as nat, |i: int| 0u8));
    }
    push_u32(&mut out, (cmds.len() as u64 % 0x1_0000_0000) as u32, e);
    let (flat, max_static, max32, max64) = write_records(&mut out, cmds);
    push_u32(&mut out, (flat.len() as u64 % 0x1_0000_0000) as u32, e);
    let mut signatures: Vec<String> = Vec::new();
    let mut pending: Vec<String> = Vec::new();
    write_table(&mut out, &flat, &mut signatures, &mut pending);
    push_u32(&mut out, (signatures.len() as u64 % 0x1_0000_0000) as u32, e);
    let mut z: usize = 0;
    let ghost before_slots = out@;
    while z < signatures.len()
        invariant
            z <= signatures@.len(),
            out@ == before_slots + Seq::new((4 * z) as nat, |i: int| 0u8),
        decreases signatures@.len() - z,
    {
        push_u32(&mut out, 0, e);
        z = z + 1;
        assert(out@ =~= before_slots + Seq::new((4 * z) as nat, |i: int| 0u8));
    }
    assert(texts(signatures@).len() == signatures@.len());
    assert(out@ =~= exb_front(cmds@));
    (out, flat, signatures, pending, max_static, max32, max64)
}

/// Points each signature slot, from `slots`, at where its signature starts in the
/// string table `u`.
fn fill_signature_slots(out: &mut Vec<u8>, slots: usize, signatures: &Vec<String>, table: &Vec<(String, u32)>, Ghost(u): Ghost<Seq<Seq<char>>>)
    requires
        slots + 4 * signatures@.len() <= old(out)@.len(),
        table@.len() == u.len(),
        forall|k: int| 0 <= k < table@.len() ==> (#[trigger] table@[k]).0@ == u[k] && table@[k].1 == cstring_offset(u, k),
        forall|k: int| 0 <= k < signatures@.len() ==> u.contains(#[trigger] signatures@[k]@),
    ensures
        final(out)@ == sig_slots(old(out)@, slots as int, u, texts(signatures@), signatures@.len() as int),
{
    let e = Endian::Little;
    let total = out.len();
    let mut i: usize = 0;
    while i < signatures.len()
        invariant
            i <= signatures@.len(),
            slots + 4 * signatures@.len() <= total,
            out@.len() == total,
            e == Endian::Little,
            table@.len() == u.len(),
            forall|k: int| 0 <= k < table@.len() ==> (#[trigger] table@[k]).0@ == u[k] && table@[k].1 == cstring_offset(u, k),
            forall|k: int| 0 <= k < signatures@.len() ==> u.contains(#[trigger] signatures@[k]@),
            out@ == sig_slots(old(out)@, slots as int, u, texts(signatures@), i as int),
        decreases signatures@.len() - i,
    {
        let ghost before = out@;
        let off = offset_in(table, &signatures[i], Ghost(u));
        let mut word: Vec<u8> = Vec::new();
        push_u32(&mut word, off, e);
        assert(word@ =~= encode_u32(off, e));
        assert(texts(signatures@)[i as int] == signatures@[i as int]@);
        write_at(out, slots + 4 * i, word.as_slice());
        proof {
            let t = texts(signatures@);
            assert(off == cstring_offset(u, index_in(u, t[i as int], 0)));
            assert(out@.len() == total);
        }
        i = i + 1;
    }
}

/// Writes, from `end`, the string table of `pending`, `more` and `signatures`, each
/// once, and points the signature slots from `slots` into it.
fn write_strings_and_slots(
    out: &mut Vec<u8>,
    end: usize,
    pending: &Vec<String>,
    more: &Vec<String>,
    signatures: &Vec<String>,
    slots: usize,
)
    requires
        end + cstrings(uniq(texts(pending@) + texts(more@) + texts(signatures@))).len() <= usize::MAX,
        slots + 4 * signatures@.len() <= old(out)@.len(),
    ensures
        ({
            let u = uniq(texts(pending@) + texts(more@) + texts(signatures@));
            final(out)@ == sig_slots(
                written_at(old(out)@, end as int, cstrings(u)),
                slots as int,
                u,
                texts(signatures@),
                signatures@.len() as int,
            )
        }),
{
    let mut all: Vec<String> = Vec::new();
    append_strings(&mut all, pending);
    append_strings(&mut all, more);
    append_strings(&mut all, signatures);
    let ghost u = uniq(texts(all@));
    assert(texts(all@) =~= texts(pending@) + texts(more@) + texts(signatures@));
    let (bytes, table) = string_table(&all);
    write_at(out, end, bytes.as_slice());
    proof {
        assert forall|k: int| 0 <= k < signatures@.len() implies u.contains(#[trigger] signatures@[k]@) by {
            let t = texts(all@);
            assert(t[texts(pending@).len() + texts(more@).len() + k] == signatures@[k]@);
            lemma_uniq_contains(t, signatures@[k]@);
        }
    }
    fill_signature_slots(out, slots, signatures, &table, Ghost(u));
}

impl Exb {
    /// Writes the program as EXB version 2 for `instance_count` instances: its
    /// commands' records and instructions, the parameter table with each operand
    /// that reads it, the string table, and a header that gives the memory the
    /// commands reach and where each table starts.
    #[verifier::rlimit(50)]
    pub fn to_bytes(&self, instance_count: u32) -> (r: Result<Vec<u8>, Error>)
        requires
            exb_fits(self.commands@),
        ensures
            r matches Ok(v) && v@ == exb_bytes(self.commands@, instance_count),
    {
        let e = Endian::Little;
        let ghost cmds = self.commands@;
        let (mut out, flat, signatures, pending, max_static, max32, max64) = write_front(&self.commands);
        let ghost front = out@;
        proof {
            lemma_records_len(cmds, cmds.len() as int);
            lemma_table_len(flat@);
            assert(front.len() == 48 + 28 * cmds.len() + 4 + 8 * flat@.len() + 4 + 4 * signatures@.len());
            lemma_params_grow((front, front.len() as int, Seq::empty()), front.len() as int, flat@);
        }
        let table_offset = 48 + 28 * self.commands.len();
        let signature_offset = table_offset + 4 + 8 * flat.len();
        let slots = signature_offset + 4;
        let parameter_offset = out.len();
        let mut more: Vec<String> = Vec::new();
        let end = write_params(&mut out, &flat, &mut more, parameter_offset);
        write_strings_and_slots(&mut out, end, &pending, &more, &signatures, slots);
        let mut header: Vec<u8> = Vec::new();
        push_u32(&mut header, max_static, e);
        push_u32(&mut header, instance_count, e);
        push_u32(&mut header, max32, e);
        push_u32(&mut header, max64, e);
        push_u32(&mut header, 44, e);
        push_u32(&mut header, (table_offset as u64 % 0x1_0000_0000) as u32, e);
        push_u32(&mut header, (signature_offset as u64 % 0x1_0000_0000) as u32, e);
        push_u32(&mut header, (parameter_offset as u64 % 0x1_0000_0000) as u32, e);
        push_u32(&mut header, (end as u64 % 0x1_0000_0000) as u32, e);
        write_at(&mut out, 8, header.as_slice());
        Ok(out)
    }
}

} // verus!
