use vstd::prelude::*;
use crate::binary::{c_string_at, u16_at, u32_at, BinaryReader, Endian};
use crate::error::{eof, invalid, Error, ErrorKind};
use crate::fmt::{hex_padded, push_char, push_hex};
use crate::text::str_eq;

verus! {

/// The number of known AINB node types.
pub const NODE_TYPE_COUNT: usize = 27;

/// The known AINB node types: each number with its name.
pub open spec fn node_types() -> Seq<(u16, Seq<char>)> {
    seq![
        (0u16, "UserDefined"@),
        (1u16, "Element_S32Selector"@),
        (2u16, "Element_Sequential"@),
        (3u16, "Element_Simultaneous"@),
        (4u16, "Element_F32Selector"@),
        (5u16, "Element_StringSelector"@),
        (6u16, "Element_RandomSelector"@),
        (7u16, "Element_BoolSelector"@),
        (8u16, "Element_Fork"@),
        (9u16, "Element_Join"@),
        (10u16, "Element_Alert"@),
        (20u16, "Element_Expression"@),
        (100u16, "Element_ModuleIF_Input_S32"@),
        (101u16, "Element_ModuleIF_Input_F32"@),
        (102u16, "Element_ModuleIF_Input_Vec3f"@),
        (103u16, "Element_ModuleIF_Input_String"@),
        (104u16, "Element_ModuleIF_Input_Bool"@),
        (105u16, "Element_ModuleIF_Input_Ptr"@),
        (200u16, "Element_ModuleIF_Output_S32"@),
        (201u16, "Element_ModuleIF_Output_F32"@),
        (202u16, "Element_ModuleIF_Output_Vec3f"@),
        (203u16, "Element_ModuleIF_Output_String"@),
        (204u16, "Element_ModuleIF_Output_Bool"@),
        (205u16, "Element_ModuleIF_Output_Ptr"@),
        (300u16, "Element_ModuleIF_Child"@),
        (400u16, "Element_StateEnd"@),
        (500u16, "Element_SplitTiming"@),
    ]
}

/// The module interface node types come in matching pairs: for the value types S32,
/// F32, Vec3f, String, Bool and Ptr in turn, `Element_ModuleIF_Input_` and the type is
/// numbered 100, 101, ... 105 and `Element_ModuleIF_Output_` and the type 200, 201,
/// ... 205. The numbers of the known types rise strictly, so no two share a number.
pub proof fn lemma_node_type_table(i: int, j: int)
    ensures
        node_types().len() == NODE_TYPE_COUNT,
        0 <= i < j < node_types().len() ==> node_types()[i].0 < node_types()[j].0,
        0 <= i < 6 ==> node_types()[12 + i].0 == 100 + i && node_types()[18 + i].0 == 200 + i,
        0 <= i < 6 ==> node_types()[12 + i].1 == "Element_ModuleIF_Input_"@ + module_types()[i],
        0 <= i < 6 ==> node_types()[18 + i].1 == "Element_ModuleIF_Output_"@ + module_types()[i],
{
    reveal_strlit("Element_ModuleIF_Input_");
    reveal_strlit("Element_ModuleIF_Output_");
    reveal_strlit("Element_ModuleIF_Input_S32");
    reveal_strlit("Element_ModuleIF_Output_S32");
    reveal_strlit("S32");
    reveal_strlit("Element_ModuleIF_Input_F32");
    reveal_strlit("Element_ModuleIF_Output_F32");
    reveal_strlit("F32");
    reveal_strlit("Element_ModuleIF_Input_Vec3f");
    reveal_strlit("Element_ModuleIF_Output_Vec3f");
    reveal_strlit("Vec3f");
    reveal_strlit("Element_ModuleIF_Input_String");
    reveal_strlit("Element_ModuleIF_Output_String");
    reveal_strlit("String");
    reveal_strlit("Element_ModuleIF_Input_Bool");
    reveal_strlit("Element_ModuleIF_Output_Bool");
    reveal_strlit("Bool");
    reveal_strlit("Element_ModuleIF_Input_Ptr");
    reveal_strlit("Element_ModuleIF_Output_Ptr");
    reveal_strlit("Ptr");
    assert(node_types()[12].1 =~= "Element_ModuleIF_Input_"@ + "S32"@);
    assert(node_types()[18].1 =~= "Element_ModuleIF_Output_"@ + "S32"@);
    assert(node_types()[13].1 =~= "Element_ModuleIF_Input_"@ + "F32"@);
    assert(node_types()[19].1 =~= "Element_ModuleIF_Output_"@ + "F32"@);
    assert(node_types()[14].1 =~= "Element_ModuleIF_Input_"@ + "Vec3f"@);
    assert(node_types()[20].1 =~= "Element_ModuleIF_Output_"@ + "Vec3f"@);
    assert(node_types()[15].1 =~= "Element_ModuleIF_Input_"@ + "String"@);
    assert(node_types()[21].1 =~= "Element_ModuleIF_Output_"@ + "String"@);
    assert(node_types()[16].1 =~= "Element_ModuleIF_Input_"@ + "Bool"@);
    assert(node_types()[22].1 =~= "Element_ModuleIF_Output_"@ + "Bool"@);
    assert(node_types()[17].1 =~= "Element_ModuleIF_Input_"@ + "Ptr"@);
    assert(node_types()[23].1 =~= "Element_ModuleIF_Output_"@ + "Ptr"@);
}

/// The value types of the module interface nodes, in number order.
pub open spec fn module_types() -> Seq<Seq<char>> {
    seq!["S32"@, "F32"@, "Vec3f"@, "String"@, "Bool"@, "Ptr"@]
}

/// The `i`-th known node type.
fn node_type_entry(i: usize) -> (r: (u16, &'static str))
    requires
        i < NODE_TYPE_COUNT,
    ensures
        r.0 == node_types()[i as int].0,
        r.1@ == node_types()[i as int].1,
{
    match i {
        0 => (0, "UserDefined"),
        1 => (1, "Element_S32Selector"),
        2 => (2, "Element_Sequential"),
        3 => (3, "Element_Simultaneous"),
        4 => (4, "Element_F32Selector"),
        5 => (5, "Element_StringSelector"),
        6 => (6, "Element_RandomSelector"),
        7 => (7, "Element_BoolSelector"),
        8 => (8, "Element_Fork"),
        9 => (9, "Element_Join"),
        10 => (10, "Element_Alert"),
        11 => (20, "Element_Expression"),
        12 => (100, "Element_ModuleIF_Input_S32"),
        13 => (101, "Element_ModuleIF_Input_F32"),
        14 => (102, "Element_ModuleIF_Input_Vec3f"),
        15 => (103, "Element_ModuleIF_Input_String"),
        16 => (104, "Element_ModuleIF_Input_Bool"),
        17 => (105, "Element_ModuleIF_Input_Ptr"),
        18 => (200, "Element_ModuleIF_Output_S32"),
        19 => (201, "Element_ModuleIF_Output_F32"),
        20 => (202, "Element_ModuleIF_Output_Vec3f"),
        21 => (203, "Element_ModuleIF_Output_String"),
        22 => (204, "Element_ModuleIF_Output_Bool"),
        23 => (205, "Element_ModuleIF_Output_Ptr"),
        24 => (300, "Element_ModuleIF_Child"),
        25 => (400, "Element_StateEnd"),
        26 => (500, "Element_SplitTiming"),
        _ => (500, "Element_SplitTiming"),
    }
}

/// The number of the node type called `name`; fails with `InvalidData` for an
/// unknown name.
pub fn node_type_value(name: &str) -> (r: Result<u16, Error>)
    ensures
        r is Ok <==> exists|i: int| 0 <= i < node_types().len() && node_types()[i].1 == name@,
        r matches Ok(v) ==> exists|i: int| 0 <= i < node_types().len() && node_types()[i] == (v, name@),
        r matches Err(e) ==> e.kind == ErrorKind::InvalidData,
{
    let mut i: usize = 0;
    while i < NODE_TYPE_COUNT
        invariant
            i <= NODE_TYPE_COUNT,
            node_types().len() == NODE_TYPE_COUNT,
            forall|j: int| 0 <= j < i ==> node_types()[j].1 != name@,
        decreases NODE_TYPE_COUNT - i,
    {
        let (value, candidate) = node_type_entry(i);
        if str_eq(candidate, name) {
            assert(node_types()[i as int] == (value, name@));
            return Ok(value);
        }
        i = i + 1;
    }
    Err(invalid("unsupported AINB node type"))
}

/// The name of the node type numbered `value`; fails with `InvalidData` for an
/// unknown number.
pub fn node_type_name(value: u16) -> (r: Result<&'static str, Error>)
    ensures
        r is Ok <==> exists|i: int| 0 <= i < node_types().len() && node_types()[i].0 == value,
        r matches Ok(s) ==> exists|i: int| 0 <= i < node_types().len() && node_types()[i] == (value, s@),
        r matches Err(e) ==> e.kind == ErrorKind::InvalidData,
{
    let mut i: usize = 0;
    while i < NODE_TYPE_COUNT
        invariant
            i <= NODE_TYPE_COUNT,
            node_types().len() == NODE_TYPE_COUNT,
            forall|j: int| 0 <= j < i ==> node_types()[j].0 != value,
        decreases NODE_TYPE_COUNT - i,
    {
        let (candidate, name) = node_type_entry(i);
        if candidate == value {
            assert(node_types()[i as int] == (value, name@));
            return Ok(name);
        }
        i = i + 1;
    }
    Err(invalid("unsupported AINB node type"))
}

/// The names of the flags set in a node's flag byte, in the order
/// `Is Query`, `Is Module`, `Is Root Node`, `Use MultiParam Type 2`.
pub open spec fn node_flag_names(flags: u8) -> Seq<Seq<char>> {
    let a = if flags & 1 != 0 { seq!["Is Query"@] } else { Seq::empty() };
    let b = if flags & 2 != 0 { seq!["Is Module"@] } else { Seq::empty() };
    let c = if flags & 4 != 0 { seq!["Is Root Node"@] } else { Seq::empty() };
    let d = if flags & 8 != 0 { seq!["Use MultiParam Type 2"@] } else { Seq::empty() };
    a + b + c + d
}

/// The names of the flags set in `flags`.
pub fn flag_names(flags: u8) -> (r: Vec<String>)
    ensures
        r@.map_values(|s: String| s@) == node_flag_names(flags),
{
    let mut out: Vec<String> = Vec::new();
    if flags & 1 != 0 {
        out.push("Is Query".to_owned());
    }
    if flags & 2 != 0 {
        out.push("Is Module".to_owned());
    }
    if flags & 4 != 0 {
        out.push("Is Root Node".to_owned());
    }
    if flags & 8 != 0 {
        out.push("Use MultiParam Type 2".to_owned());
    }
    assert(out@.map_values(|s: String| s@) =~= node_flag_names(flags));
    out
}

/// The bit of a node flag name: `Is Query` 1, `Is Module` 2, `Is Root Node` 4,
/// `Use MultiParam Type 2` 8; none for another name.
pub open spec fn flag_bit(name: Seq<char>) -> Option<u8> {
    if name == "Is Query"@ {
        Some(1)
    } else if name == "Is Module"@ {
        Some(2)
    } else if name == "Is Root Node"@ {
        Some(4)
    } else if name == "Use MultiParam Type 2"@ {
        Some(8)
    } else {
        None
    }
}

/// The flag byte of a node whose stored byte is `raw` and whose flags are `names`: the
/// upper four bits of `raw` with the bit of each name set; none when a name is unknown.
pub open spec fn flags_byte(raw: u8, names: Seq<Seq<char>>) -> Option<u8>
    decreases names.len(),
{
    if names.len() == 0 {
        Some(raw & 0xf0)
    } else {
        match (flags_byte(raw, names.drop_last()), flag_bit(names.last())) {
            (Some(a), Some(b)) => Some(a | b),
            _ => None,
        }
    }
}

/// The flag byte of a node with stored byte `raw` and flag names `names`; fails with
/// `InvalidData` on an unknown name.
pub fn node_flags(raw: u8, names: &Vec<String>) -> (r: Result<u8, Error>)
    ensures
        r is Ok <==> flags_byte(raw, names@.map_values(|s: String| s@)) is Some,
        r matches Ok(v) ==> flags_byte(raw, names@.map_values(|s: String| s@)) == Some(v),
        r matches Err(e) ==> e.kind == ErrorKind::InvalidData,
{
    let ghost v = names@.map_values(|s: String| s@);
    let mut flags: u8 = raw & 0xf0;
    let mut i: usize = 0;
    assert(v.take(0) =~= Seq::<Seq<char>>::empty());
    while i < names.len()
        invariant
            i <= names@.len(),
            v == names@.map_values(|s: String| s@),
            flags_byte(raw, v.take(i as int)) == Some(flags),
        decreases names@.len() - i,
    {
        let name = names[i].as_str();
        assert(v.take(i + 1).drop_last() =~= v.take(i as int));
        assert(v.take(i + 1).last() == name@);
        let bit: u8 = if str_eq(name, "Is Query") {
            1
        } else if str_eq(name, "Is Module") {
            2
        } else if str_eq(name, "Is Root Node") {
            4
        } else if str_eq(name, "Use MultiParam Type 2") {
            8
        } else {
            proof {
                lemma_flags_byte_fails(raw, v, i + 1);
            }
            return Err(invalid("unknown node flag"));
        };
        flags = flags | bit;
        i = i + 1;
    }
    assert(v.take(i as int) =~= v);
    Ok(flags)
}

proof fn lemma_flags_byte_fails(raw: u8, names: Seq<Seq<char>>, n: int)
    requires
        0 <= n <= names.len(),
        flags_byte(raw, names.take(n)) is None,
    ensures
        flags_byte(raw, names) is None,
    decreases names.len() - n,
{
    if n < names.len() {
        assert(names.take(n + 1).drop_last() =~= names.take(n));
        lemma_flags_byte_fails(raw, names, n + 1);
    } else {
        assert(names.take(n) =~= names);
    }
}

/// The flag names of a node byte are what encoding gives the byte back from: bit 0
/// (mask 1) names `Is Query`, bit 1 (mask 2) `Is Module`, bit 2 (mask 4) `Is Root
/// Node` and bit 3 (mask 8) `Use MultiParam Type 2`, each present exactly when its bit
/// is set, in that order; and encoding those names over the byte's upper bits gives
/// the byte.
pub proof fn lemma_flag_names_encode_back(f: u8)
    ensures
        flags_byte(f, node_flag_names(f)) == Some(f),
        node_flag_names(f).contains("Is Query"@) <==> f & 1 != 0,
        node_flag_names(f).contains("Is Module"@) <==> f & 2 != 0,
        node_flag_names(f).contains("Is Root Node"@) <==> f & 4 != 0,
        node_flag_names(f).contains("Use MultiParam Type 2"@) <==> f & 8 != 0,
        forall|i: int, j: int|
            0 <= i < j < node_flag_names(f).len() ==> flag_bit(node_flag_names(f)[i])->Some_0 < flag_bit(
                node_flag_names(f)[j],
            )->Some_0,
        forall|i: int| 0 <= i < node_flag_names(f).len() ==> #[trigger] flag_bit(node_flag_names(f)[i]) is Some,
{
    let q = "Is Query"@;
    let m = "Is Module"@;
    let r = "Is Root Node"@;
    let u = "Use MultiParam Type 2"@;
    reveal_strlit("Is Query");
    reveal_strlit("Is Module");
    reveal_strlit("Is Root Node");
    reveal_strlit("Use MultiParam Type 2");
    assert(q.len() == 8 && m.len() == 9 && r.len() == 12 && u.len() == 21);
    assert(flag_bit(q) == Some(1u8));
    assert(flag_bit(m) == Some(2u8));
    assert(flag_bit(r) == Some(4u8));
    assert(flag_bit(u) == Some(8u8));
    let a = if f & 1 != 0 { seq![q] } else { Seq::<Seq<char>>::empty() };
    let b = if f & 2 != 0 { seq![m] } else { Seq::<Seq<char>>::empty() };
    let c = if f & 4 != 0 { seq![r] } else { Seq::<Seq<char>>::empty() };
    let d = if f & 8 != 0 { seq![u] } else { Seq::<Seq<char>>::empty() };
    let s0 = Seq::<Seq<char>>::empty();
    let s1 = s0 + a;
    let s2 = s1 + b;
    let s3 = s2 + c;
    let s4 = s3 + d;
    assert(node_flag_names(f) == s4);
    assert(flags_byte(f, s0) == Some(f & 0xf0));
    assert(flags_byte(f, s1) == Some(f & 0xf1)) by {
        if f & 1 != 0 {
            assert(s1.drop_last() =~= s0);
            assert((f & 0xf0) | 1 == f & 0xf1) by (bit_vector)
                requires
                    f & 1 != 0,
            ;
        } else {
            assert(s1 =~= s0);
            assert(f & 0xf0 == f & 0xf1) by (bit_vector)
                requires
                    f & 1 == 0,
            ;
        }
    }
    assert(flags_byte(f, s2) == Some(f & 0xf3)) by {
        if f & 2 != 0 {
            assert(s2.drop_last() =~= s1);
            assert((f & 0xf1) | 2 == f & 0xf3) by (bit_vector)
                requires
                    f & 2 != 0,
            ;
        } else {
            assert(s2 =~= s1);
            assert(f & 0xf1 == f & 0xf3) by (bit_vector)
                requires
                    f & 2 == 0,
            ;
        }
    }
    assert(flags_byte(f, s3) == Some(f & 0xf7)) by {
        if f & 4 != 0 {
            assert(s3.drop_last() =~= s2);
            assert((f & 0xf3) | 4 == f & 0xf7) by (bit_vector)
                requires
                    f & 4 != 0,
            ;
        } else {
            assert(s3 =~= s2);
            assert(f & 0xf3 == f & 0xf7) by (bit_vector)
                requires
                    f & 4 == 0,
            ;
        }
    }
    assert(flags_byte(f, s4) == Some(f)) by {
        if f & 8 != 0 {
            assert(s4.drop_last() =~= s3);
            assert((f & 0xf7) | 8 == f) by (bit_vector)
                requires
                    f & 8 != 0,
            ;
        } else {
            assert(s4 =~= s3);
            assert(f & 0xf7 == f) by (bit_vector)
                requires
                    f & 8 == 0,
            ;
        }
    }
    assert(q != m && q != r && q != u && m != r && m != u && r != u);
    assert(node_flag_names(f).contains(q) <==> f & 1 != 0) by {
        if f & 1 != 0 {
            assert(s4[0] == q);
        } else {
            assert forall|i: int| 0 <= i < s4.len() implies s4[i] != q by {}
        }
    }
    assert(node_flag_names(f).contains(m) <==> f & 2 != 0) by {
        if f & 2 != 0 {
            assert(s4[a.len() as int] == m);
        } else {
            assert forall|i: int| 0 <= i < s4.len() implies s4[i] != m by {}
        }
    }
    assert(node_flag_names(f).contains(r) <==> f & 4 != 0) by {
        if f & 4 != 0 {
            assert(s4[(a.len() + b.len()) as int] == r);
        } else {
            assert forall|i: int| 0 <= i < s4.len() implies s4[i] != r by {}
        }
    }
    assert(node_flag_names(f).contains(u) <==> f & 8 != 0) by {
        if f & 8 != 0 {
            assert(s4[(a.len() + b.len() + c.len()) as int] == u);
        } else {
            assert forall|i: int| 0 <= i < s4.len() implies s4[i] != u by {}
        }
    }
}

/// The GUID text of the sixteen bytes at `p`: the first three fields as zero-padded
/// hexadecimal of 8, 4 and 4 digits, then the eight remaining bytes as two-digit
/// hexadecimal split after the second, the groups joined by `-`.
pub open spec fn ainb_guid_text(b: Seq<u8>, p: int, e: Endian) -> Seq<char> {
    hex_padded(u32_at(b, p, e) as nat, 8) + seq!['-'] + hex_padded(u16_at(b, p + 4, e) as nat, 4)
        + seq!['-'] + hex_padded(u16_at(b, p + 6, e) as nat, 4) + seq!['-'] + bytes_hex(
        b.subrange(p + 8, p + 10),
    ) + seq!['-'] + bytes_hex(b.subrange(p + 10, p + 16))
}

/// Each byte of `b` as two-digit hexadecimal.
pub open spec fn bytes_hex(b: Seq<u8>) -> Seq<char>
    decreases b.len(),
{
    if b.len() == 0 {
        Seq::empty()
    } else {
        bytes_hex(b.drop_last()) + hex_padded(b.last() as nat, 2)
    }
}

fn push_bytes_hex(s: &mut String, b: &[u8])
    ensures
        final(s)@ == old(s)@ + bytes_hex(b@),
{
    let mut i: usize = 0;
    while i < b.len()
        invariant
            i <= b@.len(),
            s@ == old(s)@ + bytes_hex(b@.subrange(0, i as int)),
        decreases b@.len() - i,
    {
        proof {
            assert(b@.subrange(0, i + 1).drop_last() =~= b@.subrange(0, i as int));
        }
        push_hex(s, b[i] as u64, 2);
        i = i + 1;
    }
    assert(b@.subrange(0, b@.len() as int) =~= b@);
}

/// Reads a GUID at the reader's position and formats it as text.
pub fn read_guid(reader: &mut BinaryReader<'_>) -> (res: Result<String, Error>)
    requires
        old(reader).wf(),
    ensures
        final(reader).wf(),
        final(reader).bytes() == old(reader).bytes(),
        final(reader).order() == old(reader).order(),
        res is Ok <==> old(reader).pos() + 16 <= old(reader).bytes().len(),
        res matches Ok(s) ==> s@ == ainb_guid_text(old(reader).bytes(), old(reader).pos(), old(reader).order())
            && final(reader).pos() == old(reader).pos() + 16,
        res matches Err(e) ==> e.kind == ErrorKind::UnexpectedEof,
{
    let ghost b = reader.bytes();
    let ghost p = reader.pos();
    let a = reader.read_u32()?;
    let b1 = reader.read_u16()?;
    let c = reader.read_u16()?;
    let d = reader.read_bytes(8)?;
    assert(d@.len() == 8);
    let mut s = String::new();
    push_hex(&mut s, a as u64, 8);
    push_char(&mut s, '-');
    push_hex(&mut s, b1 as u64, 4);
    push_char(&mut s, '-');
    push_hex(&mut s, c as u64, 4);
    push_char(&mut s, '-');
    push_bytes_hex(&mut s, &d[0..2]);
    push_char(&mut s, '-');
    push_bytes_hex(&mut s, &d[2..8]);
    proof {
        assert(d@.subrange(0, 2) =~= b.subrange(p + 8, p + 10));
        assert(d@.subrange(2, 8) =~= b.subrange(p + 10, p + 16));
        assert(s@ =~= ainb_guid_text(b, p, reader.order()));
    }
    Ok(s)
}

/// Reads a 32-bit offset into the string pool at `pool` and returns the string there.
pub fn read_string(reader: &mut BinaryReader<'_>, pool: usize) -> (res: Result<String, Error>)
    requires
        old(reader).wf(),
    ensures
        final(reader).wf(),
        final(reader).bytes() == old(reader).bytes(),
        final(reader).order() == old(reader).order(),
        res is Ok <==> old(reader).pos() + 4 <= old(reader).bytes().len() && c_string_at(
            old(reader).bytes(),
            pool + u32_at(old(reader).bytes(), old(reader).pos(), old(reader).order()),
        ) is Some,
        res matches Ok(s) ==> s@ == c_string_at(
            old(reader).bytes(),
            pool + u32_at(old(reader).bytes(), old(reader).pos(), old(reader).order()),
        )->Some_0 && final(reader).pos() == old(reader).pos() + 4,
        res matches Err(e) ==> e.kind == ErrorKind::UnexpectedEof || e.kind == ErrorKind::InvalidData,
{
    let offset = reader.read_u32()?;
    read_pool_string(reader, pool, offset)
}

/// The string at `pool + offset` of the reader's input, an offset past the end of
/// the address space counting as past the end of the input.
pub fn read_pool_string(reader: &BinaryReader<'_>, pool: usize, offset: u32) -> (res: Result<String, Error>)
    requires
        reader.wf(),
    ensures
        res is Ok <==> c_string_at(reader.bytes(), pool + offset) is Some,
        res matches Ok(s) ==> s@ == c_string_at(reader.bytes(), pool + offset)->Some_0,
        res matches Err(e) ==> e.kind == ErrorKind::UnexpectedEof || e.kind == ErrorKind::InvalidData,
{
    match pool.checked_add(offset as usize) {
        Some(at) => reader.read_c_string_at(at),
        None => Err(eof("string offset past end of input")),
    }
}

} // verus!
