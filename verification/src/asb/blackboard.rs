use vstd::prelude::*;
use crate::binary::{c_string_at, u16_at, u32_at, BinaryReader, Endian};
use crate::error::{Error, ErrorKind};
use vstd::string::StringExecFns;

verus! {

/// A file that a blackboard parameter refers to.
#[derive(Clone, Debug)]
pub struct FileReference {
    pub filename: String,
}

/// The initial value of a blackboard parameter: a string, an unsigned integer, a
/// float by its bit pattern, a flag, three floats by their bit patterns, or nothing
/// for a user-defined parameter.
#[derive(Clone, Debug)]
pub enum BlackboardValue {
    String(String),
    Int(u32),
    Float(u32),
    Bool(bool),
    Vec3f(u32, u32, u32),
    Null,
}

/// A parameter of a local blackboard: its name, initial value and file reference.
#[derive(Clone, Debug)]
pub struct BlackboardParameter {
    pub name: String,
    pub init_value: BlackboardValue,
    pub file_reference: Option<FileReference>,
}

/// The parameters of a local blackboard grouped by type name, in the order of the
/// names, each group holding at least one parameter.
#[derive(Clone, Debug)]
pub struct LocalBlackboard(pub Vec<(String, Vec<BlackboardParameter>)>);

/// The type names of the six groups, in file order.
pub open spec fn group_name(k: int) -> Seq<char> {
    if k == 0 {
        "string"@
    } else if k == 1 {
        "int"@
    } else if k == 2 {
        "float"@
    } else if k == 3 {
        "bool"@
    } else if k == 4 {
        "vec3f"@
    } else {
        "userdefined"@
    }
}

/// The bytes an initial value of group `k` takes.
pub open spec fn value_width(k: int) -> int {
    if k == 4 {
        12
    } else if k == 5 {
        0
    } else {
        4
    }
}

/// The six groups of a local blackboard, in file order, are named "string", "int",
/// "float", "bool", "vec3f" and "userdefined"; a "vec3f" value takes twelve bytes, a
/// "userdefined" one none, every other four.
pub proof fn lemma_group_names()
    ensures
        group_name(0) == "string"@ && value_width(0) == 4,
        group_name(1) == "int"@ && value_width(1) == 4,
        group_name(2) == "float"@ && value_width(2) == 4,
        group_name(3) == "bool"@ && value_width(3) == 4,
        group_name(4) == "vec3f"@ && value_width(4) == 12,
        group_name(5) == "userdefined"@ && value_width(5) == 0,
{
}

/// The number of parameters of group `k`, from the header at `p`.
pub open spec fn group_count(b: Seq<u8>, p: int, e: Endian, k: int) -> int {
    u16_at(b, p + 8 * k, e) as int
}

/// Where the initial values of group `k` start, relative to the value area.
pub open spec fn group_offset(b: Seq<u8>, p: int, e: Endian, k: int) -> int {
    u16_at(b, p + 8 * k + 4, e) as int
}

/// The number of parameters of the groups before group `k`.
pub open spec fn counts_before(b: Seq<u8>, p: int, e: Endian, k: int) -> int
    decreases k,
{
    if k <= 0 {
        0
    } else {
        counts_before(b, p, e, k - 1) + group_count(b, p, e, k - 1)
    }
}

/// The word of the `j`-th parameter over all groups: its name's pool offset in the low
/// 22 bits and, when bit 31 is set, a file reference index in bits 24 to 30.
pub open spec fn entry_word(b: Seq<u8>, p: int, e: Endian, j: int) -> u32 {
    u32_at(b, p + 48 + 4 * j, e)
}

/// The file reference index a parameter word holds, if any.
pub open spec fn reference_of(w: u32) -> Option<int> {
    if w >> 31u32 != 0 {
        Some(((w >> 24u32) & 0x7f) as int)
    } else {
        None
    }
}

/// The largest file reference index among the first `j` parameters, or zero.
pub open spec fn max_reference(b: Seq<u8>, p: int, e: Endian, j: int) -> int
    decreases j,
{
    if j <= 0 {
        0
    } else {
        let m = max_reference(b, p, e, j - 1);
        match reference_of(entry_word(b, p, e, j - 1)) {
            Some(r) => if r > m {
                r
            } else {
                m
            },
            None => m,
        }
    }
}

/// Where the value area starts: after the six headers and every parameter word.
pub open spec fn values_base(b: Seq<u8>, p: int, e: Endian) -> int {
    p + 48 + 4 * counts_before(b, p, e, 6)
}

/// Where the initial value of parameter `i` of group `k` lies.
pub open spec fn value_at(b: Seq<u8>, p: int, e: Endian, k: int, i: int) -> int {
    values_base(b, p, e) + group_offset(b, p, e, k) + value_width(k) * i
}

/// Where the file reference table starts: at the user-defined group's value offset.
pub open spec fn references_base(b: Seq<u8>, p: int, e: Endian) -> int {
    values_base(b, p, e) + group_offset(b, p, e, 5)
}

/// The file name of reference `r`.
pub open spec fn reference_name(b: Seq<u8>, pool: Seq<u8>, p: int, e: Endian, r: int) -> Option<Seq<char>> {
    c_string_at(pool, u32_at(b, references_base(b, p, e) + 16 * r, e) as int)
}

/// Whether the local blackboard at `p` can be read: its headers and parameter words,
/// every name, the value area of each group, every string value, and one file
/// reference record (of sixteen bytes) for each index up to the largest one used.
pub open spec fn blackboard_readable(b: Seq<u8>, pool: Seq<u8>, p: int, e: Endian) -> bool {
    let n = counts_before(b, p, e, 6);
    let vb = values_base(b, p, e);
    let m = max_reference(b, p, e, n);
    &&& p + 48 <= b.len()
    &&& vb <= b.len()
    &&& forall|j: int| 0 <= j < n ==> c_string_at(pool, (#[trigger] entry_word(b, p, e, j) & 0x3f_ffff) as int) is Some
    &&& forall|k: int|
        0 <= k < 6 ==> vb + group_offset(b, p, e, k) + value_width(k) * #[trigger] group_count(b, p, e, k)
            <= b.len()
    &&& forall|i: int|
        0 <= i < group_count(b, p, e, 0) ==> c_string_at(pool, u32_at(b, #[trigger] value_at(b, p, e, 0, i), e) as int)
            is Some
    &&& references_base(b, p, e) + 16 * (m + 1) <= b.len()
    &&& forall|r: int| 0 <= r <= m ==> #[trigger] reference_name(b, pool, p, e, r) is Some
}

/// Whether `v` is the initial value of group `k` stored at `at`.
pub open spec fn value_is(v: BlackboardValue, b: Seq<u8>, pool: Seq<u8>, at: int, e: Endian, k: int) -> bool {
    if k == 0 {
        v matches BlackboardValue::String(s) && c_string_at(pool, u32_at(b, at, e) as int) == Some(s@)
    } else if k == 1 {
        v == BlackboardValue::Int(u32_at(b, at, e))
    } else if k == 2 {
        v == BlackboardValue::Float(u32_at(b, at, e))
    } else if k == 3 {
        v == BlackboardValue::Bool(u32_at(b, at, e) != 0)
    } else if k == 4 {
        v == BlackboardValue::Vec3f(u32_at(b, at, e), u32_at(b, at + 4, e), u32_at(b, at + 8, e))
    } else {
        v == BlackboardValue::Null
    }
}

/// Whether `x` is parameter `i` of group `k`: the name its word points at, its initial
/// value, and the file its reference index names.
pub open spec fn parameter_is(x: BlackboardParameter, b: Seq<u8>, pool: Seq<u8>, p: int, e: Endian, k: int, i: int) -> bool {
    let w = entry_word(b, p, e, counts_before(b, p, e, k) + i);
    &&& c_string_at(pool, (w & 0x3f_ffff) as int) == Some(x.name@)
    &&& value_is(x.init_value, b, pool, value_at(b, p, e, k, i), e, k)
    &&& match reference_of(w) {
        Some(r) => x.file_reference matches Some(f) && reference_name(b, pool, p, e, r) == Some(f.filename@),
        None => x.file_reference is None,
    }
}

/// Reads the six group headers at the cursor: a 16-bit count and a 16-bit value
/// offset each, each followed by 16 unused bits.
fn read_headers(reader: &mut BinaryReader<'_>) -> (r: Result<Vec<(u16, u16)>, Error>)
    requires
        old(reader).wf(),
    ensures
        final(reader).wf(),
        final(reader).bytes() == old(reader).bytes(),
        final(reader).order() == old(reader).order(),
        r is Ok <==> old(reader).pos() + 48 <= old(reader).bytes().len(),
        r matches Ok(v) ==> {
            &&& v@.len() == 6
            &&& forall|k: int|
                0 <= k < 6 ==> (#[trigger] v@[k]).0 == group_count(old(reader).bytes(), old(reader).pos(), old(reader).order(), k)
                    && v@[k].1 == group_offset(old(reader).bytes(), old(reader).pos(), old(reader).order(), k)
            &&& final(reader).pos() == old(reader).pos() + 48
        },
        r matches Err(e) ==> e.kind == ErrorKind::UnexpectedEof,
{
    let ghost b = reader.bytes();
    let ghost p = reader.pos();
    if reader.position() > reader.len() || reader.len() - reader.position() < 48 {
        return Err(crate::error::eof("ASB blackboard header is truncated"));
    }
    let mut v: Vec<(u16, u16)> = Vec::new();
    let mut k: usize = 0;
    while k < 6
        invariant
            reader.wf(),
            reader.bytes() == b,
            reader.order() == old(reader).order(),
            b == old(reader).bytes(),
            p == old(reader).pos(),
            p + 48 <= b.len(),
            k <= 6,
            reader.pos() == p + 8 * k,
            v@.len() == k,
            forall|j: int|
                0 <= j < k ==> (#[trigger] v@[j]).0 == group_count(b, p, reader.order(), j) && v@[j].1
                    == group_offset(b, p, reader.order(), j),
        decreases 6 - k,
    {
        let count = reader.read_u16()?;
        let _ = reader.read_u16()?;
        let offset = reader.read_u16()?;
        let _ = reader.read_u16()?;
        v.push((count, offset));
        k = k + 1;
    }
    Ok(v)
}

/// Reads `n` parameter words at the cursor, with the name each points at in `pool`.
fn read_words(reader: &mut BinaryReader<'_>, pool: &BinaryReader<'_>, n: usize) -> (r: Result<(Vec<u32>, Vec<String>), Error>)
    requires
        old(reader).wf(),
    ensures
        final(reader).wf(),
        final(reader).bytes() == old(reader).bytes(),
        final(reader).order() == old(reader).order(),
        r is Ok <==> old(reader).pos() + 4 * n <= old(reader).bytes().len() && forall|j: int|
            0 <= j < n ==> c_string_at(
                pool.bytes(),
                (#[trigger] u32_at(old(reader).bytes(), old(reader).pos() + 4 * j, old(reader).order()) & 0x3f_ffff) as int,
            ) is Some,
        r matches Ok((words, names)) ==> {
            &&& words@.len() == n
            &&& names@.len() == n
            &&& forall|j: int|
                0 <= j < n ==> #[trigger] words@[j] == u32_at(old(reader).bytes(), old(reader).pos() + 4 * j, old(reader).order())
                    && c_string_at(pool.bytes(), (words@[j] & 0x3f_ffff) as int) == Some(names@[j]@)
            &&& final(reader).pos() == old(reader).pos() + 4 * n
        },
        r matches Err(e) ==> e.kind == ErrorKind::UnexpectedEof || e.kind == ErrorKind::InvalidData,
{
    let ghost b = reader.bytes();
    let ghost p = reader.pos();
    let ghost e = reader.order();
    let mut words: Vec<u32> = Vec::new();
    let mut names: Vec<String> = Vec::new();
    let mut j: usize = 0;
    while j < n
        invariant
            reader.wf(),
            reader.bytes() == b,
            reader.order() == e,
            b == old(reader).bytes(),
            e == old(reader).order(),
            p == old(reader).pos(),
            j <= n,
            reader.pos() == p + 4 * j,
            words@.len() == j,
            names@.len() == j,
            forall|i: int|
                0 <= i < j ==> #[trigger] words@[i] == u32_at(b, p + 4 * i, e) && c_string_at(
                    pool.bytes(),
                    (words@[i] & 0x3f_ffff) as int,
                ) == Some(names@[i]@),
        decreases n - j,
    {
        let w = match reader.read_u32() {
            Ok(w) => w,
            Err(err) => {
                assert(!(p + 4 * n <= b.len()));
                return Err(err);
            },
        };
        assert(w == u32_at(b, p + 4 * j, e));
        let name = match pool.read_c_string_at((w & 0x3f_ffff) as usize) {
            Ok(s) => s,
            Err(err) => {
                assert(c_string_at(pool.bytes(), (u32_at(b, p + 4 * j, e) & 0x3f_ffff) as int) is None);
                return Err(err);
            },
        };
        words.push(w);
        names.push(name);
        j = j + 1;
    }
    assert forall|i: int| 0 <= i < n implies c_string_at(
        pool.bytes(),
        (#[trigger] u32_at(b, p + 4 * i, e) & 0x3f_ffff) as int,
    ) is Some by {
        assert(words@[i] == u32_at(b, p + 4 * i, e));
    }
    Ok((words, names))
}

/// Reads `count` initial values of group `k` at the cursor.
fn read_values(reader: &mut BinaryReader<'_>, pool: &BinaryReader<'_>, k: usize, count: usize) -> (r: Result<Vec<BlackboardValue>, Error>)
    requires
        old(reader).wf(),
        k < 6,
    ensures
        final(reader).wf(),
        final(reader).bytes() == old(reader).bytes(),
        final(reader).order() == old(reader).order(),
        r is Ok <==> old(reader).pos() + value_width(k as int) * count <= old(reader).bytes().len() && (k == 0
            ==> forall|i: int|
            0 <= i < count ==> c_string_at(
                pool.bytes(),
                #[trigger] u32_at(old(reader).bytes(), old(reader).pos() + 4 * i, old(reader).order()) as int,
            ) is Some),
        r matches Ok(v) ==> {
            &&& v@.len() == count
            &&& forall|i: int|
                0 <= i < count ==> value_is(
                    #[trigger] v@[i],
                    old(reader).bytes(),
                    pool.bytes(),
                    old(reader).pos() + value_width(k as int) * i,
                    old(reader).order(),
                    k as int,
                )
            &&& final(reader).pos() == old(reader).pos() + value_width(k as int) * count
        },
        r matches Err(e) ==> e.kind == ErrorKind::UnexpectedEof || e.kind == ErrorKind::InvalidData,
{
    let ghost b = reader.bytes();
    let ghost p = reader.pos();
    let ghost e = reader.order();
    let ghost wd = value_width(k as int);
    let mut v: Vec<BlackboardValue> = Vec::new();
    let mut i: usize = 0;
    while i < count
        invariant
            reader.wf(),
            reader.bytes() == b,
            reader.order() == e,
            b == old(reader).bytes(),
            e == old(reader).order(),
            p == old(reader).pos(),
            k < 6,
            wd == value_width(k as int),
            i <= count,
            reader.pos() == p + wd * i,
            v@.len() == i,
            forall|j: int| 0 <= j < i ==> value_is(#[trigger] v@[j], b, pool.bytes(), p + wd * j, e, k as int),
            k == 0 ==> forall|j: int|
                0 <= j < i ==> c_string_at(pool.bytes(), #[trigger] u32_at(b, p + 4 * j, e) as int) is Some,
        decreases count - i,
    {
        let value = if k == 0 {
            let at = match reader.read_u32() {
                Ok(a) => a,
                Err(err) => {
                    assert(!(p + wd * count <= b.len()));
                    return Err(err);
                },
            };
            match pool.read_c_string_at(at as usize) {
                Ok(s) => BlackboardValue::String(s),
                Err(err) => {
                    assert(c_string_at(pool.bytes(), u32_at(b, p + 4 * i, e) as int) is None);
                    return Err(err);
                },
            }
        } else if k == 5 {
            BlackboardValue::Null
        } else {
            if reader.position() > reader.len() || reader.len() - reader.position() < (if k == 4 { 12 } else { 4 }) {
                assert(!(p + wd * count <= b.len())) by (nonlinear_arith)
                    requires
                        p + wd * i + wd > b.len(),
                        i < count,
                        wd >= 0,
                ;
                return Err(crate::error::eof("ASB blackboard value is truncated"));
            }
            let x = reader.read_u32()?;
            if k == 1 {
                BlackboardValue::Int(x)
            } else if k == 2 {
                BlackboardValue::Float(x)
            } else if k == 3 {
                BlackboardValue::Bool(x != 0)
            } else {
                let y = reader.read_u32()?;
                let z = reader.read_u32()?;
                BlackboardValue::Vec3f(x, y, z)
            }
        };
        v.push(value);
        assert(wd * (i + 1) == wd * i + wd) by (nonlinear_arith);
        i = i + 1;
    }
    assert(p + wd * count <= b.len());
    Ok(v)
}

/// The groups in the order of their type names: bool, float, int, string,
/// userdefined, vec3f.
pub open spec fn sorted_group(t: int) -> int {
    if t == 0 {
        3
    } else if t == 1 {
        2
    } else if t == 2 {
        1
    } else if t == 3 {
        0
    } else if t == 4 {
        5
    } else {
        4
    }
}

/// Listing the groups by `sorted_group` visits each of the six once, in the
/// alphabetical order of their names: bool, float, int, string, userdefined, vec3f.
pub proof fn lemma_sorted_groups(t: int, u: int)
    requires
        0 <= t < u < 6,
    ensures
        0 <= sorted_group(t) < 6,
        sorted_group(t) != sorted_group(u),
        group_name(sorted_group(t))[0] < group_name(sorted_group(u))[0],
        group_name(sorted_group(0)) == "bool"@,
        group_name(sorted_group(5)) == "vec3f"@,
{
    reveal_strlit("string");
    reveal_strlit("int");
    reveal_strlit("float");
    reveal_strlit("bool");
    reveal_strlit("vec3f");
    reveal_strlit("userdefined");
}

/// The groups, in name order among the first `t`, that hold at least one parameter.
pub open spec fn present_groups(b: Seq<u8>, p: int, e: Endian, t: int) -> Seq<int>
    decreases t,
{
    if t <= 0 {
        Seq::empty()
    } else {
        let r = present_groups(b, p, e, t - 1);
        if group_count(b, p, e, sorted_group(t - 1)) > 0 {
            r.push(sorted_group(t - 1))
        } else {
            r
        }
    }
}

/// Whether `groups` are the first `t` non-empty groups of the blackboard at `p`, in
/// name order, each under its type name with its parameters in file order.
pub open spec fn groups_are(groups: Seq<(String, Vec<BlackboardParameter>)>, b: Seq<u8>, pool: Seq<u8>, p: int, e: Endian, t: int) -> bool {
    let kinds = present_groups(b, p, e, t);
    &&& groups.len() == kinds.len()
    &&& forall|m: int|
        0 <= m < groups.len() ==> {
            let k = kinds[m];
            &&& (#[trigger] groups[m]).0@ == group_name(k)
            &&& groups[m].1@.len() == group_count(b, p, e, k)
            &&& forall|i: int|
                0 <= i < group_count(b, p, e, k) ==> parameter_is(#[trigger] groups[m].1@[i], b, pool, p, e, k, i)
        }
}

proof fn lemma_counts_grow(b: Seq<u8>, p: int, e: Endian, a: int, c: int)
    requires
        0 <= a <= c,
    ensures
        counts_before(b, p, e, a) <= counts_before(b, p, e, c),
    decreases c - a,
{
    if a < c {
        lemma_counts_grow(b, p, e, a, c - 1);
    }
}

proof fn lemma_max_reference_bounds(b: Seq<u8>, p: int, e: Endian, j: int, n: int)
    requires
        0 <= j < n,
    ensures
        reference_of(entry_word(b, p, e, j)) matches Some(r) ==> r <= max_reference(b, p, e, n),
        max_reference(b, p, e, j) <= max_reference(b, p, e, n),
    decreases n - j,
{
    if j < n - 1 {
        lemma_max_reference_bounds(b, p, e, j, n - 1);
    }
}

/// The same value, with a string taken by its text.
pub open spec fn same_value(a: BlackboardValue, v: BlackboardValue) -> bool {
    match (a, v) {
        (BlackboardValue::String(x), BlackboardValue::String(y)) => x@ == y@,
        _ => a == v,
    }
}

fn copy_value(v: &BlackboardValue) -> (r: BlackboardValue)
    ensures
        same_value(r, *v),
{
    match v {
        BlackboardValue::String(s) => BlackboardValue::String(s.clone()),
        BlackboardValue::Int(x) => BlackboardValue::Int(*x),
        BlackboardValue::Float(x) => BlackboardValue::Float(*x),
        BlackboardValue::Bool(x) => BlackboardValue::Bool(*x),
        BlackboardValue::Vec3f(x, y, z) => BlackboardValue::Vec3f(*x, *y, *z),
        BlackboardValue::Null => BlackboardValue::Null,
    }
}

fn group_name_text(k: usize) -> (s: String)
    requires
        k < 6,
    ensures
        s@ == group_name(k as int),
{
    if k == 0 {
        String::from_str("string")
    } else if k == 1 {
        String::from_str("int")
    } else if k == 2 {
        String::from_str("float")
    } else if k == 3 {
        String::from_str("bool")
    } else if k == 4 {
        String::from_str("vec3f")
    } else {
        String::from_str("userdefined")
    }
}

fn sorted_group_index(t: usize) -> (k: usize)
    requires
        t < 6,
    ensures
        k == sorted_group(t as int),
        k < 6,
{
    if t == 0 {
        3
    } else if t == 1 {
        2
    } else if t == 2 {
        1
    } else if t == 3 {
        0
    } else if t == 4 {
        5
    } else {
        4
    }
}

/// Reads `count` file reference records at the cursor: a pool offset of the file name,
/// then twelve unused bytes each.
fn read_references(reader: &mut BinaryReader<'_>, pool: &BinaryReader<'_>, count: usize) -> (r: Result<Vec<String>, Error>)
    requires
        old(reader).wf(),
    ensures
        final(reader).wf(),
        final(reader).bytes() == old(reader).bytes(),
        final(reader).order() == old(reader).order(),
        r is Ok <==> old(reader).pos() + 16 * count <= old(reader).bytes().len() && forall|t: int|
            0 <= t < count ==> c_string_at(
                pool.bytes(),
                #[trigger] u32_at(old(reader).bytes(), old(reader).pos() + 16 * t, old(reader).order()) as int,
            ) is Some,
        r matches Ok(v) ==> {
            &&& v@.len() == count
            &&& forall|t: int|
                0 <= t < count ==> c_string_at(
                    pool.bytes(),
                    u32_at(old(reader).bytes(), old(reader).pos() + 16 * t, old(reader).order()) as int,
                ) == Some((#[trigger] v@[t])@)
            &&& final(reader).pos() == old(reader).pos() + 16 * count
        },
        r matches Err(e) ==> e.kind == ErrorKind::UnexpectedEof || e.kind == ErrorKind::InvalidData,
{
    let ghost b = reader.bytes();
    let ghost p = reader.pos();
    let ghost e = reader.order();
    let mut refs: Vec<String> = Vec::new();
    let mut t: usize = 0;
    while t < count
        invariant
            reader.wf(),
            reader.bytes() == b,
            reader.order() == e,
            b == old(reader).bytes(),
            e == old(reader).order(),
            p == old(reader).pos(),
            t <= count,
            reader.pos() == p + 16 * t,
            refs@.len() == t,
            forall|i: int| 0 <= i < t ==> c_string_at(pool.bytes(), u32_at(b, p + 16 * i, e) as int) == Some((#[trigger] refs@[i])@),
        decreases count - t,
    {
        let at = match reader.read_u32() {
            Ok(a) => a,
            Err(err) => {
                return Err(err);
            },
        };
        let name = match pool.read_c_string_at(at as usize) {
            Ok(s) => s,
            Err(err) => {
                assert(c_string_at(pool.bytes(), u32_at(b, p + 16 * t, e) as int) is None);
                return Err(err);
            },
        };
        match reader.skip(12) {
            Ok(()) => {},
            Err(err) => {
                return Err(err);
            },
        }
        refs.push(name);
        t = t + 1;
    }
    assert forall|i: int| 0 <= i < count implies c_string_at(
        pool.bytes(),
        #[trigger] u32_at(b, p + 16 * i, e) as int,
    ) is Some by {
        assert(c_string_at(pool.bytes(), u32_at(b, p + 16 * i, e) as int) == Some(refs@[i]@));
    }
    Ok(refs)
}

proof fn lemma_values_extend(
    before: Seq<BlackboardValue>,
    group: Seq<BlackboardValue>,
    b: Seq<u8>,
    pb: Seq<u8>,
    p: int,
    e: Endian,
    k: int,
)
    requires
        0 <= k < 6,
        before.len() == counts_before(b, p, e, k),
        group.len() == group_count(b, p, e, k),
        forall|kk: int, i: int|
            0 <= kk < k && 0 <= i < group_count(b, p, e, kk) ==> value_is(
                before[counts_before(b, p, e, kk) + i],
                b,
                pb,
                #[trigger] value_at(b, p, e, kk, i),
                e,
                kk,
            ),
        forall|i: int| 0 <= i < group.len() ==> value_is(#[trigger] group[i], b, pb, value_at(b, p, e, k, i), e, k),
    ensures
        (before + group).len() == counts_before(b, p, e, k + 1),
        forall|kk: int, i: int|
            0 <= kk < k + 1 && 0 <= i < group_count(b, p, e, kk) ==> value_is(
                (before + group)[counts_before(b, p, e, kk) + i],
                b,
                pb,
                #[trigger] value_at(b, p, e, kk, i),
                e,
                kk,
            ),
{
    let values = before + group;
    assert forall|kk: int, i: int|
        0 <= kk < k + 1 && 0 <= i < group_count(b, p, e, kk) implies value_is(
            values[counts_before(b, p, e, kk) + i],
            b,
            pb,
            #[trigger] value_at(b, p, e, kk, i),
            e,
            kk,
        ) by {
        lemma_counts_grow(b, p, e, 0, kk);
        if kk < k {
            lemma_counts_grow(b, p, e, kk + 1, k);
            assert(counts_before(b, p, e, kk + 1) == counts_before(b, p, e, kk) + group_count(b, p, e, kk));
            assert(values[counts_before(b, p, e, kk) + i] == before[counts_before(b, p, e, kk) + i]);
        } else {
            assert(values[counts_before(b, p, e, kk) + i] == group[i]);
        }
    }
}

impl LocalBlackboard {
    /// Reads the local blackboard at the cursor, with strings from `pool`: six group
    /// headers (string, int, float, bool, vec3f, userdefined), the parameter words of
    /// every group, each group's initial values at its offset in the value area, then
    /// the file reference records, which start at the user-defined group's offset; one
    /// record is read for every index up to the largest one used, and at least one.
    /// Empty groups are left out.
    #[verifier::rlimit(80)]
    pub fn read(reader: &mut BinaryReader<'_>, pool: &BinaryReader<'_>) -> (r: Result<Self, Error>)
        requires
            old(reader).wf(),
        ensures
            final(reader).wf(),
            final(reader).bytes() == old(reader).bytes(),
            final(reader).order() == old(reader).order(),
            r is Ok <==> blackboard_readable(old(reader).bytes(), pool.bytes(), old(reader).pos(), old(reader).order()),
            r matches Ok(bb) ==> {
                let b = old(reader).bytes();
                let p = old(reader).pos();
                let e = old(reader).order();
                &&& groups_are(bb.0@, b, pool.bytes(), p, e, 6)
                &&& final(reader).pos() == references_base(b, p, e) + 16 * (max_reference(
                    b,
                    p,
                    e,
                    counts_before(b, p, e, 6),
                ) + 1)
            },
            r matches Err(e) ==> e.kind == ErrorKind::UnexpectedEof || e.kind == ErrorKind::InvalidData,
    {
        let ghost b = reader.bytes();
        let ghost p = reader.pos();
        let ghost e = reader.order();
        let ghost pb = pool.bytes();
        let headers = read_headers(reader)?;
        let mut starts: Vec<usize> = Vec::new();
        let mut n: usize = 0;
        let mut k: usize = 0;
        while k < 6
            invariant
                headers@.len() == 6,
                forall|j: int| 0 <= j < 6 ==> (#[trigger] headers@[j]).0 == group_count(b, p, e, j) && headers@[j].1
                    == group_offset(b, p, e, j),
                k <= 6,
                n == counts_before(b, p, e, k as int),
                n <= 65535 * k,
                starts@.len() == k,
                forall|j: int| 0 <= j < k ==> #[trigger] starts@[j] == counts_before(b, p, e, j),
            decreases 6 - k,
        {
            starts.push(n);
            n = n + headers[k].0 as usize;
            k = k + 1;
        }
        let ghost nn = n as int;
        assert(nn == counts_before(b, p, e, 6));
        let (words, names) = match read_words(reader, pool, n) {
            Ok(x) => x,
            Err(err) => {
                assert forall|j: int| 0 <= j < n implies #[trigger] u32_at(b, p + 48 + 4 * j, e) == entry_word(b, p, e, j) by {}
                return Err(err);
            },
        };
        assert(forall|j: int| 0 <= j < n ==> #[trigger] words@[j] == entry_word(b, p, e, j));
        let vb = reader.position();
        assert(vb == values_base(b, p, e));
        let mut values: Vec<BlackboardValue> = Vec::new();
        let mut k: usize = 0;
        while k < 6
            invariant
                reader.wf(),
                reader.bytes() == b,
                reader.order() == e,
                b == old(reader).bytes(),
                e == old(reader).order(),
                p == old(reader).pos(),
                pool.bytes() == pb,
                headers@.len() == 6,
                forall|j: int| 0 <= j < 6 ==> (#[trigger] headers@[j]).0 == group_count(b, p, e, j) && headers@[j].1
                    == group_offset(b, p, e, j),
                starts@.len() == 6,
                forall|j: int| 0 <= j < 6 ==> #[trigger] starts@[j] == counts_before(b, p, e, j),
                vb == values_base(b, p, e),
                vb <= b.len(),
                k <= 6,
                values@.len() == counts_before(b, p, e, k as int),
                forall|kk: int|
                    0 <= kk < k ==> vb + group_offset(b, p, e, kk) + value_width(kk) * #[trigger] group_count(
                        b,
                        p,
                        e,
                        kk,
                    ) <= b.len(),
                k > 0 ==> reader.pos() == value_at(b, p, e, k - 1, group_count(b, p, e, k - 1)),
                forall|kk: int, i: int|
                    0 <= kk < k && 0 <= i < group_count(b, p, e, kk) ==> value_is(
                        values@[counts_before(b, p, e, kk) + i],
                        b,
                        pb,
                        #[trigger] value_at(b, p, e, kk, i),
                        e,
                        kk,
                    ),
                k > 0 ==> forall|i: int|
                    0 <= i < group_count(b, p, e, 0) ==> c_string_at(pb, u32_at(b, #[trigger] value_at(b, p, e, 0, i), e) as int)
                        is Some,
            decreases 6 - k,
        {
            let offset = headers[k].1 as usize;
            let count = headers[k].0 as usize;
            if offset > reader.len() || vb > reader.len() - offset {
                return Err(crate::error::eof("ASB blackboard value offset is past the end"));
            }
            let _ = reader.seek(vb + offset);
            let ghost before = values@;
            let mut group = match read_values(reader, pool, k, count) {
                Ok(g) => g,
                Err(err) => {
                    proof {
                        assert(group_count(b, p, e, k as int) == count);
                        if vb + offset + value_width(k as int) * count <= b.len() {
                            let i = choose|i: int|
                                0 <= i < count && !(c_string_at(pb, #[trigger] u32_at(b, vb + offset + 4 * i, e) as int) is Some);
                            assert(value_at(b, p, e, 0, i) == vb + offset + 4 * i);
                        }
                    }
                    return Err(err);
                },
            };
            proof {
                assert forall|i: int| 0 <= i < count implies value_is(
                    #[trigger] group@[i],
                    b,
                    pb,
                    value_at(b, p, e, k as int, i),
                    e,
                    k as int,
                ) by {}
                if k == 0 {
                    assert forall|i: int|
                        0 <= i < group_count(b, p, e, 0) implies c_string_at(pb, u32_at(b, #[trigger] value_at(b, p, e, 0, i), e) as int)
                            is Some by {
                        assert(value_at(b, p, e, 0, i) == vb + offset + 4 * i);
                    }
                }
            }
            proof {
                lemma_values_extend(before, group@, b, pb, p, e, k as int);
            }
            values.append(&mut group);
            k = k + 1;
        }
        let rb = reader.position();
        assert(rb == references_base(b, p, e));
        let mut m: usize = 0;
        let mut j: usize = 0;
        while j < n
            invariant
                j <= n,
                n == nn,
                words@.len() == nn,
                forall|i: int| 0 <= i < nn ==> #[trigger] words@[i] == entry_word(b, p, e, i),
                m == max_reference(b, p, e, j as int),
                m < 128,
            decreases n - j,
        {
            let w = words[j];
            if w >> 31u32 != 0 {
                let r = ((w >> 24u32) & 0x7f) as usize;
                assert(((w >> 24u32) & 0x7f) < 128) by (bit_vector);
                if r > m {
                    m = r;
                }
            }
            j = j + 1;
        }
        let refs = match read_references(reader, pool, m + 1) {
            Ok(v) => v,
            Err(err) => {
                proof {
                    if rb + 16 * (m + 1) <= b.len() {
                        let t = choose|t: int|
                            0 <= t < m + 1 && !(c_string_at(pb, #[trigger] u32_at(b, rb + 16 * t, e) as int) is Some);
                        assert(!(reference_name(b, pb, p, e, t) is Some));
                    }
                }
                return Err(err);
            },
        };
        assert forall|i: int| 0 <= i <= m implies #[trigger] reference_name(b, pb, p, e, i) == Some(refs@[i]@) by {
            assert(c_string_at(pb, u32_at(b, rb + 16 * i, e) as int) == Some(refs@[i]@));
        }
        assert(blackboard_readable(b, pb, p, e));
        let mut groups: Vec<(String, Vec<BlackboardParameter>)> = Vec::new();
        let mut t: usize = 0;
        while t < 6
            invariant
                t <= 6,
                headers@.len() == 6,
                forall|j: int| 0 <= j < 6 ==> (#[trigger] headers@[j]).0 == group_count(b, p, e, j),
                starts@.len() == 6,
                forall|j: int| 0 <= j < 6 ==> #[trigger] starts@[j] == counts_before(b, p, e, j),
                nn == counts_before(b, p, e, 6),
                nn == n,
                words@.len() == nn,
                names@.len() == nn,
                values@.len() == nn,
                forall|i: int|
                    0 <= i < nn ==> #[trigger] words@[i] == entry_word(b, p, e, i) && c_string_at(
                        pb,
                        (words@[i] & 0x3f_ffff) as int,
                    ) == Some(names@[i]@),
                forall|kk: int, i: int|
                    0 <= kk < 6 && 0 <= i < group_count(b, p, e, kk) ==> value_is(
                        values@[counts_before(b, p, e, kk) + i],
                        b,
                        pb,
                        #[trigger] value_at(b, p, e, kk, i),
                        e,
                        kk,
                    ),
                m == max_reference(b, p, e, nn),
                refs@.len() == m + 1,
                forall|i: int| 0 <= i <= m ==> #[trigger] reference_name(b, pb, p, e, i) == Some(refs@[i]@),
                groups_are(groups@, b, pb, p, e, t as int),
            decreases 6 - t,
        {
            let k = sorted_group_index(t);
            let count = headers[k].0 as usize;
            let start = starts[k];
            if count > 0 {
                proof {
                    lemma_counts_grow(b, p, e, k + 1, 6);
                }
                let mut group: Vec<BlackboardParameter> = Vec::new();
                let mut i: usize = 0;
                while i < count
                    invariant
                        k < 6,
                        count == group_count(b, p, e, k as int),
                        start == counts_before(b, p, e, k as int),
                        start + count <= nn,
                        nn == n,
                        nn == counts_before(b, p, e, 6),
                        words@.len() == nn,
                        names@.len() == nn,
                        values@.len() == nn,
                        forall|i: int|
                            0 <= i < nn ==> #[trigger] words@[i] == entry_word(b, p, e, i) && c_string_at(
                                pb,
                                (words@[i] & 0x3f_ffff) as int,
                            ) == Some(names@[i]@),
                        forall|kk: int, i: int|
                            0 <= kk < 6 && 0 <= i < group_count(b, p, e, kk) ==> value_is(
                                values@[counts_before(b, p, e, kk) + i],
                                b,
                                pb,
                                #[trigger] value_at(b, p, e, kk, i),
                                e,
                                kk,
                            ),
                        m == max_reference(b, p, e, nn),
                        refs@.len() == m + 1,
                        forall|i: int| 0 <= i <= m ==> #[trigger] reference_name(b, pb, p, e, i) == Some(refs@[i]@),
                        i <= count,
                        group@.len() == i,
                        forall|q: int| 0 <= q < i ==> parameter_is(#[trigger] group@[q], b, pb, p, e, k as int, q),
                    decreases count - i,
                {
                    let j = start + i;
                    let w = words[j];
                    let file_reference = if w >> 31u32 != 0 {
                        let r = ((w >> 24u32) & 0x7f) as usize;
                        proof {
                            lemma_max_reference_bounds(b, p, e, j as int, nn);
                        }
                        Some(FileReference { filename: refs[r].clone() })
                    } else {
                        None
                    };
                    let init_value = copy_value(&values[j]);
                    let x = BlackboardParameter { name: names[j].clone(), init_value, file_reference };
                    proof {
                        assert(value_is(values@[counts_before(b, p, e, k as int) + i], b, pb, value_at(b, p, e, k as int, i as int), e, k as int));
                        assert(parameter_is(x, b, pb, p, e, k as int, i as int));
                    }
                    group.push(x);
                    i = i + 1;
                }
                let ghost before = groups@;
                groups.push((group_name_text(k), group));
                proof {
                    assert(present_groups(b, p, e, t + 1) == present_groups(b, p, e, t as int).push(k as int));
                    assert forall|mm: int| 0 <= mm < groups@.len() implies {
                        let kk = present_groups(b, p, e, t + 1)[mm];
                        &&& (#[trigger] groups@[mm]).0@ == group_name(kk)
                        &&& groups@[mm].1@.len() == group_count(b, p, e, kk)
                        &&& forall|q: int|
                            0 <= q < group_count(b, p, e, kk) ==> parameter_is(#[trigger] groups@[mm].1@[q], b, pb, p, e, kk, q)
                    } by {
                        if mm < before.len() {
                            assert(groups@[mm] == before[mm]);
                        }
                    }
                }
            } else {
                assert(present_groups(b, p, e, t + 1) == present_groups(b, p, e, t as int));
            }
            t = t + 1;
        }
        Ok(LocalBlackboard(groups))
    }
}

} // verus!
