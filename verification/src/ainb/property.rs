use vstd::prelude::*;
use crate::ainb::node::read_string;
use crate::ainb::parameter::{flags_from_raw, param_type_name, ParamFlags, ParamType, PARAM_TYPES};
use crate::binary::{c_string_at, signed32, u32_at, BinaryReader, Endian};
use crate::error::{invalid, Error, ErrorKind};
use vstd::string::StringExecFns;

verus! {

/// A parameter value of an AINB file: an integer, a flag, a float by its bit pattern,
/// a string, three floats by their bit patterns, or nothing for a pointer.
#[derive(Clone, Debug)]
pub enum AinbValue {
    Int(i32),
    Bool(bool),
    Float(u32),
    String(String),
    Vector3F(u32, u32, u32),
    Null,
}

/// The bytes a value of type `kind` takes; a pointer takes four, or none where it has
/// no storage.
pub open spec fn value_bytes(kind: ParamType, no_storage: bool) -> int {
    match kind {
        ParamType::Vector3F => 12,
        ParamType::Pointer => if no_storage {
            0
        } else {
            4
        },
        _ => 4,
    }
}

/// Whether a value of type `kind` can be read at `q`: in bounds, a string's text in the
/// pool at `pool`, and a stored pointer zero.
pub open spec fn value_ok(b: Seq<u8>, pool: int, q: int, e: Endian, kind: ParamType, no_storage: bool) -> bool {
    &&& q + value_bytes(kind, no_storage) <= b.len()
    &&& kind == ParamType::String ==> c_string_at(b, pool + u32_at(b, q, e)) is Some
    &&& kind == ParamType::Pointer && !no_storage ==> u32_at(b, q, e) == 0
}

/// Whether `v` is the value of type `kind` stored at `q`.
pub open spec fn value_is(v: AinbValue, b: Seq<u8>, pool: int, q: int, e: Endian, kind: ParamType) -> bool {
    match kind {
        ParamType::Int => v == AinbValue::Int(signed32(u32_at(b, q, e) as int) as i32),
        ParamType::Bool => v == AinbValue::Bool(u32_at(b, q, e) != 0),
        ParamType::Float => v == AinbValue::Float(u32_at(b, q, e)),
        ParamType::String => v matches AinbValue::String(s) && c_string_at(b, pool + u32_at(b, q, e)) == Some(s@),
        ParamType::Vector3F => v == AinbValue::Vector3F(u32_at(b, q, e), u32_at(b, q + 4, e), u32_at(b, q + 8, e)),
        ParamType::Pointer => v == AinbValue::Null,
    }
}

/// Reads a value of type `kind` at the cursor; a pointer's storage, where it has one,
/// must be zero. Fails with `InvalidData` for a pointer that is not, and as the reads
/// do otherwise.
pub fn read_value(reader: &mut BinaryReader<'_>, pool: usize, kind: ParamType, no_storage: bool) -> (r: Result<AinbValue, Error>)
    requires
        old(reader).wf(),
    ensures
        final(reader).wf(),
        final(reader).bytes() == old(reader).bytes(),
        final(reader).order() == old(reader).order(),
        r is Ok <==> value_ok(old(reader).bytes(), pool as int, old(reader).pos(), old(reader).order(), kind, no_storage),
        r matches Ok(v) ==> value_is(v, old(reader).bytes(), pool as int, old(reader).pos(), old(reader).order(), kind)
            && final(reader).pos() == old(reader).pos() + value_bytes(kind, no_storage),
        r matches Err(e) ==> e.kind == ErrorKind::UnexpectedEof || e.kind == ErrorKind::InvalidData,
{
    match kind {
        ParamType::Int => {
            let v = reader.read_i32()?;
            Ok(AinbValue::Int(v))
        },
        ParamType::Bool => {
            let v = reader.read_u32()?;
            Ok(AinbValue::Bool(v != 0))
        },
        ParamType::Float => {
            let v = reader.read_u32()?;
            Ok(AinbValue::Float(v))
        },
        ParamType::String => {
            let s = read_string(reader, pool)?;
            Ok(AinbValue::String(s))
        },
        ParamType::Vector3F => {
            if reader.position() > reader.len() || reader.len() - reader.position() < 12 {
                return Err(crate::error::eof("AINB vector value is truncated"));
            }
            let x = reader.read_u32()?;
            let y = reader.read_u32()?;
            let z = reader.read_u32()?;
            Ok(AinbValue::Vector3F(x, y, z))
        },
        ParamType::Pointer => {
            if !no_storage {
                let v = reader.read_u32()?;
                if v != 0 {
                    return Err(invalid("pointer input default is non-zero"));
                }
            }
            Ok(AinbValue::Null)
        },
    }
}

/// A property of a node: its name, class name (for a pointer), default value and flags.
#[derive(Clone, Debug)]
pub struct Property {
    pub name: String,
    pub classname: Option<String>,
    pub default_value: AinbValue,
    pub flags: ParamFlags,
}

/// Where the flag word of a property record at `q` lies: after the name offset, and
/// for a pointer after the class name offset too.
pub open spec fn flags_at(q: int, kind: ParamType) -> int {
    if kind == ParamType::Pointer {
        q + 8
    } else {
        q + 4
    }
}

/// The bytes a property record of type `kind` takes.
pub open spec fn property_bytes(kind: ParamType) -> int {
    if kind == ParamType::Vector3F {
        0x14
    } else {
        0x0c
    }
}

/// Whether the property record of type `kind` at `q` can be read.
pub open spec fn property_ok(b: Seq<u8>, pool: int, q: int, e: Endian, kind: ParamType) -> bool {
    &&& q + 4 <= b.len()
    &&& c_string_at(b, pool + u32_at(b, q, e)) is Some
    &&& kind == ParamType::Pointer ==> q + 8 <= b.len() && c_string_at(b, pool + u32_at(b, q + 4, e)) is Some
    &&& flags_at(q, kind) + 4 <= b.len()
    &&& value_ok(b, pool, flags_at(q, kind) + 4, e, kind, true)
}

/// Whether `x` is the property record of type `kind` at `q`.
pub open spec fn property_is(x: Property, b: Seq<u8>, pool: int, q: int, e: Endian, kind: ParamType) -> bool {
    &&& c_string_at(b, pool + u32_at(b, q, e)) == Some(x.name@)
    &&& if kind == ParamType::Pointer {
        x.classname matches Some(c) && c_string_at(b, pool + u32_at(b, q + 4, e)) == Some(c@)
    } else {
        x.classname is None
    }
    &&& x.flags.view() == flags_from_raw(u32_at(b, flags_at(q, kind), e))
    &&& value_is(x.default_value, b, pool, flags_at(q, kind) + 4, e, kind)
}

impl Property {
    /// Reads a property record of type `kind` at the cursor: the name's pool offset,
    /// for a pointer the class name's, the flag word and the default value, which a
    /// pointer does not store.
    pub fn read(reader: &mut BinaryReader<'_>, pool: usize, kind: ParamType) -> (r: Result<Self, Error>)
        requires
            old(reader).wf(),
        ensures
            final(reader).wf(),
            final(reader).bytes() == old(reader).bytes(),
            final(reader).order() == old(reader).order(),
            r is Ok <==> property_ok(old(reader).bytes(), pool as int, old(reader).pos(), old(reader).order(), kind),
            r matches Ok(x) ==> property_is(x, old(reader).bytes(), pool as int, old(reader).pos(), old(reader).order(), kind)
                && final(reader).pos() == old(reader).pos() + property_bytes(kind),
            r matches Err(e) ==> e.kind == ErrorKind::UnexpectedEof || e.kind == ErrorKind::InvalidData,
    {
        let name = read_string(reader, pool)?;
        let classname = if kind == ParamType::Pointer {
            Some(read_string(reader, pool)?)
        } else {
            None
        };
        let raw = reader.read_u32()?;
        let flags = ParamFlags::from_raw(raw);
        let default_value = read_value(reader, pool, kind, true)?;
        Ok(Property { name, classname, default_value, flags })
    }
}

/// Reads `count` property records of type `kind` at the cursor, one after another.
fn read_properties(reader: &mut BinaryReader<'_>, pool: usize, kind: ParamType, count: usize) -> (r: Result<Vec<Property>, Error>)
    requires
        old(reader).wf(),
    ensures
        final(reader).wf(),
        final(reader).bytes() == old(reader).bytes(),
        final(reader).order() == old(reader).order(),
        r is Ok <==> forall|i: int|
            0 <= i < count ==> property_ok(
                old(reader).bytes(),
                pool as int,
                #[trigger] (old(reader).pos() + property_bytes(kind) * i),
                old(reader).order(),
                kind,
            ),
        r matches Ok(v) ==> {
            &&& v@.len() == count
            &&& forall|i: int|
                0 <= i < count ==> property_is(
                    #[trigger] v@[i],
                    old(reader).bytes(),
                    pool as int,
                    old(reader).pos() + property_bytes(kind) * i,
                    old(reader).order(),
                    kind,
                )
            &&& final(reader).pos() == old(reader).pos() + property_bytes(kind) * count
        },
        r matches Err(e) ==> e.kind == ErrorKind::UnexpectedEof || e.kind == ErrorKind::InvalidData,
{
    let ghost b = reader.bytes();
    let ghost p = reader.pos();
    let ghost e = reader.order();
    let ghost w = property_bytes(kind);
    let mut v: Vec<Property> = Vec::new();
    let mut i: usize = 0;
    while i < count
        invariant
            reader.wf(),
            reader.bytes() == b,
            reader.order() == e,
            b == old(reader).bytes(),
            e == old(reader).order(),
            p == old(reader).pos(),
            w == property_bytes(kind),
            i <= count,
            reader.pos() == p + w * i,
            v@.len() == i,
            forall|j: int| 0 <= j < i ==> property_ok(b, pool as int, #[trigger] (p + w * j), e, kind),
            forall|j: int| 0 <= j < i ==> property_is(#[trigger] v@[j], b, pool as int, p + w * j, e, kind),
        decreases count - i,
    {
        let x = match Property::read(reader, pool, kind) {
            Ok(x) => x,
            Err(err) => {
                assert(!property_ok(b, pool as int, p + w * i, e, kind));
                return Err(err);
            },
        };
        v.push(x);
        assert(w * (i + 1) == w * i + w) by (nonlinear_arith);
        i = i + 1;
    }
    Ok(v)
}

/// Reads the records of group `k` from `start` to `end`: whole records only. Fails with
/// `InvalidData` when `start` lies past `end`.
fn read_group(reader: &mut BinaryReader<'_>, pool: usize, k: usize, start: usize, end: usize) -> (r: Result<Vec<Property>, Error>)
    requires
        old(reader).wf(),
        k < 6,
    ensures
        final(reader).wf(),
        final(reader).bytes() == old(reader).bytes(),
        final(reader).order() == old(reader).order(),
        r is Ok <==> start <= end && start <= old(reader).bytes().len() && forall|i: int|
            0 <= i < (end - start) / property_bytes(kind_at(k as int)) ==> property_ok(
                old(reader).bytes(),
                pool as int,
                #[trigger] (start + property_bytes(kind_at(k as int)) * i),
                old(reader).order(),
                kind_at(k as int),
            ),
        r matches Ok(v) ==> {
            let w = property_bytes(kind_at(k as int));
            &&& v@.len() == (end - start) / w
            &&& forall|i: int|
                0 <= i < v@.len() ==> property_is(
                    #[trigger] v@[i],
                    old(reader).bytes(),
                    pool as int,
                    start + w * i,
                    old(reader).order(),
                    kind_at(k as int),
                )
            &&& final(reader).pos() == start + w * v@.len()
        },
        r matches Err(e) ==> e.kind == ErrorKind::UnexpectedEof || e.kind == ErrorKind::InvalidData,
{
    let kind = kind_of(k);
    if start > end {
        return Err(invalid("property offsets are not ordered"));
    }
    let _ = reader.seek(start)?;
    let size: usize = if kind == ParamType::Vector3F {
        0x14
    } else {
        0x0c
    };
    let count = (end - start) / size;
    read_properties(reader, pool, kind, count)
}

/// The parameter type of each group, in file order.
pub open spec fn kind_at(k: int) -> ParamType {
    if k == 0 {
        ParamType::Int
    } else if k == 1 {
        ParamType::Bool
    } else if k == 2 {
        ParamType::Float
    } else if k == 3 {
        ParamType::String
    } else if k == 4 {
        ParamType::Vector3F
    } else {
        ParamType::Pointer
    }
}

pub(crate) fn kind_of(k: usize) -> (t: ParamType)
    requires
        k < 6,
    ensures
        t == kind_at(k as int),
{
    if k == 0 {
        ParamType::Int
    } else if k == 1 {
        ParamType::Bool
    } else if k == 2 {
        ParamType::Float
    } else if k == 3 {
        ParamType::String
    } else if k == 4 {
        ParamType::Vector3F
    } else {
        ParamType::Pointer
    }
}

/// The groups in the order of their type names: Bool, Float, Int, Pointer, String,
/// Vector3F.
pub open spec fn sorted_kind(t: int) -> int {
    if t == 0 {
        1
    } else if t == 1 {
        2
    } else if t == 2 {
        0
    } else if t == 3 {
        5
    } else if t == 4 {
        3
    } else {
        4
    }
}

/// The groups of a table are the parameter types in file order (Int, Bool, Float,
/// String, Vector3F, Pointer); listing them by `sorted_kind` visits each group once,
/// in the alphabetical order of the type names: Bool, Float, Int, Pointer, String,
/// Vector3F.
pub proof fn lemma_sorted_kinds(t: int, u: int)
    requires
        0 <= t < u < 6,
    ensures
        kind_at(t) == PARAM_TYPES@[t],
        0 <= sorted_kind(t) < 6,
        sorted_kind(t) != sorted_kind(u),
        param_type_name(kind_at(sorted_kind(t)))[0] < param_type_name(kind_at(sorted_kind(u)))[0],
        param_type_name(kind_at(sorted_kind(0))) == "Bool"@,
        param_type_name(kind_at(sorted_kind(5))) == "Vector3F"@,
{
    reveal_strlit("Int");
    reveal_strlit("Bool");
    reveal_strlit("Float");
    reveal_strlit("String");
    reveal_strlit("Vector3F");
    reveal_strlit("Pointer");
    assert(PARAM_TYPES@ == seq![ParamType::Int, ParamType::Bool, ParamType::Float, ParamType::String, ParamType::Vector3F, ParamType::Pointer]);
}

/// The offset of group `k` in the table at `p`.
pub open spec fn set_offset(b: Seq<u8>, p: int, e: Endian, k: int) -> int {
    u32_at(b, p + 4 * k, e) as int
}

/// Where group `k` ends: at the next group's offset, or at `end` for the last.
pub open spec fn set_end(b: Seq<u8>, p: int, e: Endian, k: int, end: int) -> int {
    if k < 5 {
        set_offset(b, p, e, k + 1)
    } else {
        end
    }
}

/// The number of records of group `k`: the whole records between its offset and end.
pub open spec fn set_count(b: Seq<u8>, p: int, e: Endian, k: int, end: int) -> int {
    (set_end(b, p, e, k, end) - set_offset(b, p, e, k)) / property_bytes(kind_at(k))
}

/// Whether group `k` of the property set at `p` can be read: its offset no later than
/// its end and within the input, and readable records.
#[verifier::opaque]
pub open spec fn group_ok(b: Seq<u8>, pool: int, p: int, e: Endian, end: int, k: int) -> bool {
    &&& set_offset(b, p, e, k) <= set_end(b, p, e, k, end)
    &&& set_offset(b, p, e, k) <= b.len()
    &&& forall|i: int|
        0 <= i < set_count(b, p, e, k, end) ==> property_ok(
            b,
            pool,
            #[trigger] (set_offset(b, p, e, k) + property_bytes(kind_at(k)) * i),
            e,
            kind_at(k),
        )
}

/// Whether `g` holds the records of group `k` of the property set at `p`, in order.
#[verifier::opaque]
pub open spec fn group_is(g: Seq<Property>, b: Seq<u8>, pool: int, p: int, e: Endian, end: int, k: int) -> bool {
    &&& g.len() == set_count(b, p, e, k, end)
    &&& forall|i: int|
        0 <= i < g.len() ==> property_is(
            #[trigger] g[i],
            b,
            pool,
            set_offset(b, p, e, k) + property_bytes(kind_at(k)) * i,
            e,
            kind_at(k),
        )
}

/// Whether the property set whose offset table is at `p` can be read: the table and
/// every group.
pub open spec fn property_set_ok(b: Seq<u8>, pool: int, p: int, e: Endian, end: int) -> bool {
    &&& p + 24 <= b.len()
    &&& forall|k: int| 0 <= k < 6 ==> #[trigger] group_ok(b, pool, p, e, end, k)
}

/// The groups, in name order among the first `t`, that hold at least one record.
pub open spec fn present_kinds(b: Seq<u8>, p: int, e: Endian, end: int, t: int) -> Seq<int>
    decreases t,
{
    if t <= 0 {
        Seq::empty()
    } else {
        let r = present_kinds(b, p, e, end, t - 1);
        if set_count(b, p, e, sorted_kind(t - 1), end) > 0 {
            r.push(sorted_kind(t - 1))
        } else {
            r
        }
    }
}

/// Whether `groups` are the first `t` non-empty groups of the property set at `p`, in
/// name order, each under its type name with its records in file order.
pub open spec fn property_set_is(groups: Seq<(String, Vec<Property>)>, b: Seq<u8>, pool: int, p: int, e: Endian, end: int, t: int) -> bool {
    let kinds = present_kinds(b, p, e, end, t);
    &&& groups.len() == kinds.len()
    &&& forall|m: int|
        0 <= m < groups.len() ==> (#[trigger] groups[m]).0@ == param_type_name(kind_at(kinds[m])) && group_is(
            groups[m].1@,
            b,
            pool,
            p,
            e,
            end,
            kinds[m],
        )
}

proof fn lemma_set_step(
    before: Seq<(String, Vec<Property>)>,
    after: Seq<(String, Vec<Property>)>,
    g: Seq<Property>,
    b: Seq<u8>,
    pool: int,
    p: int,
    e: Endian,
    end: int,
    t: int,
)
    requires
        0 <= t < 6,
        property_set_is(before, b, pool, p, e, end, t),
        group_is(g, b, pool, p, e, end, sorted_kind(t)),
        g.len() > 0 ==> after.len() == before.len() + 1 && after.drop_last() == before && after.last().0@
            == param_type_name(kind_at(sorted_kind(t))) && after.last().1@ == g,
        g.len() == 0 ==> after == before,
    ensures
        property_set_is(after, b, pool, p, e, end, t + 1),
{
    reveal(group_is);
    let k = sorted_kind(t);
    if g.len() > 0 {
        assert(present_kinds(b, p, e, end, t + 1) == present_kinds(b, p, e, end, t).push(k));
        assert forall|m: int| 0 <= m < after.len() implies (#[trigger] after[m]).0@ == param_type_name(
            kind_at(present_kinds(b, p, e, end, t + 1)[m]),
        ) && group_is(after[m].1@, b, pool, p, e, end, present_kinds(b, p, e, end, t + 1)[m]) by {
            if m < before.len() {
                assert(after[m] == after.drop_last()[m]);
            }
        }
    } else {
        assert(present_kinds(b, p, e, end, t + 1) == present_kinds(b, p, e, end, t));
    }
}

/// Appends `g` under the name of `kind`, unless it is empty.
fn push_group<T>(groups: &mut Vec<(String, Vec<T>)>, kind: ParamType, g: Vec<T>)
    ensures
        g@.len() > 0 ==> final(groups)@.len() == old(groups)@.len() + 1 && final(groups)@.drop_last() == old(groups)@
            && final(groups)@.last().0@ == param_type_name(kind) && final(groups)@.last().1@ == g@,
        g@.len() == 0 ==> final(groups)@ == old(groups)@,
{
    if g.len() > 0 {
        groups.push((String::from_str(kind.name()), g));
    }
}

/// Reads a property set at the cursor: six offsets, one per type in file order, each
/// group running to the next offset (the last to `end_offset`) as whole records. Groups
/// with no record are left out; the others come in the order of their type names.
/// Fails with `InvalidData` when an offset lies past its group's end, and as the reads
/// do otherwise. The cursor ends after the pointer group.
#[verifier::rlimit(100)]
pub fn read_property_set(reader: &mut BinaryReader<'_>, pool: usize, end_offset: usize) -> (r: Result<Vec<(String, Vec<Property>)>, Error>)
    requires
        old(reader).wf(),
    ensures
        final(reader).wf(),
        final(reader).bytes() == old(reader).bytes(),
        final(reader).order() == old(reader).order(),
        r is Ok <==> property_set_ok(old(reader).bytes(), pool as int, old(reader).pos(), old(reader).order(), end_offset as int),
        r matches Ok(v) ==> {
            let b = old(reader).bytes();
            let p = old(reader).pos();
            let e = old(reader).order();
            &&& property_set_is(v@, b, pool as int, p, e, end_offset as int, 6)
            &&& final(reader).pos() == set_offset(b, p, e, 5) + 12 * set_count(b, p, e, 5, end_offset as int)
        },
        r matches Err(e) ==> e.kind == ErrorKind::UnexpectedEof || e.kind == ErrorKind::InvalidData,
{
    let ghost b = reader.bytes();
    let ghost p = reader.pos();
    let ghost e = reader.order();
    if reader.position() > reader.len() || reader.len() - reader.position() < 24 {
        return Err(crate::error::eof("AINB property table is truncated"));
    }
    let mut offsets: Vec<usize> = Vec::new();
    let mut k: usize = 0;
    while k < 6
        invariant
            reader.wf(),
            reader.bytes() == b,
            reader.order() == e,
            b == old(reader).bytes(),
            e == old(reader).order(),
            p == old(reader).pos(),
            p + 24 <= b.len(),
            k <= 6,
            reader.pos() == p + 4 * k,
            offsets@.len() == k,
            forall|j: int| 0 <= j < k ==> #[trigger] offsets@[j] == set_offset(b, p, e, j),
        decreases 6 - k,
    {
        let o = reader.read_u32()?;
        offsets.push(o as usize);
        k = k + 1;
    }
    let mut g0: Vec<Property> = Vec::new();
    let mut g1: Vec<Property> = Vec::new();
    let mut g2: Vec<Property> = Vec::new();
    let mut g3: Vec<Property> = Vec::new();
    let mut g4: Vec<Property> = Vec::new();
    let mut g5: Vec<Property> = Vec::new();
    let ghost en = end_offset as int;
    let ghost pl = pool as int;
    let mut k: usize = 0;
    while k < 6
        invariant
            reader.wf(),
            reader.bytes() == b,
            reader.order() == e,
            b == old(reader).bytes(),
            e == old(reader).order(),
            p == old(reader).pos(),
            en == end_offset,
            pl == pool,
            p + 24 <= b.len(),
            k <= 6,
            offsets@.len() == 6,
            forall|j: int| 0 <= j < 6 ==> #[trigger] offsets@[j] == set_offset(b, p, e, j),
            forall|j: int| 0 <= j < k ==> #[trigger] group_ok(b, pl, p, e, en, j),
            k > 0 ==> group_is(g0@, b, pl, p, e, en, 0),
            k > 1 ==> group_is(g1@, b, pl, p, e, en, 1),
            k > 2 ==> group_is(g2@, b, pl, p, e, en, 2),
            k > 3 ==> group_is(g3@, b, pl, p, e, en, 3),
            k > 4 ==> group_is(g4@, b, pl, p, e, en, 4),
            k > 5 ==> group_is(g5@, b, pl, p, e, en, 5),
            k > 5 ==> reader.pos() == set_offset(b, p, e, 5) + 12 * set_count(b, p, e, 5, en),
        decreases 6 - k,
    {
        let start = offsets[k];
        let end = if k < 5 {
            offsets[k + 1]
        } else {
            end_offset
        };
        assert(start == set_offset(b, p, e, k as int) && end == set_end(b, p, e, k as int, en));
        let values = match read_group(reader, pool, k, start, end) {
            Ok(v) => v,
            Err(err) => {
                assert(!group_ok(b, pl, p, e, en, k as int)) by {
                    reveal(group_ok);
                }
                return Err(err);
            },
        };
        assert(group_ok(b, pl, p, e, en, k as int) && group_is(values@, b, pl, p, e, en, k as int)) by {
            reveal(group_ok);
            reveal(group_is);
        }
        if k == 0 {
            g0 = values;
        } else if k == 1 {
            g1 = values;
        } else if k == 2 {
            g2 = values;
        } else if k == 3 {
            g3 = values;
        } else if k == 4 {
            g4 = values;
        } else {
            g5 = values;
        }
        k = k + 1;
    }
    assert(g0@.len() == set_count(b, p, e, 0, en) && g1@.len() == set_count(b, p, e, 1, en) && g2@.len()
        == set_count(b, p, e, 2, en) && g3@.len() == set_count(b, p, e, 3, en) && g4@.len() == set_count(b, p, e, 4, en)
        && g5@.len() == set_count(b, p, e, 5, en)) by {
        reveal(group_is);
    }
    let mut groups: Vec<(String, Vec<Property>)> = Vec::new();
    assert(property_set_is(groups@, b, pl, p, e, en, 0));
    let ghost before = groups@;
    let ghost gv = g1@;
    push_group(&mut groups, ParamType::Bool, g1);
    proof {
        lemma_set_step(before, groups@, gv, b, pl, p, e, en, 0);
    }
    let ghost before = groups@;
    let ghost gv = g2@;
    push_group(&mut groups, ParamType::Float, g2);
    proof {
        lemma_set_step(before, groups@, gv, b, pl, p, e, en, 1);
    }
    let ghost before = groups@;
    let ghost gv = g0@;
    push_group(&mut groups, ParamType::Int, g0);
    proof {
        lemma_set_step(before, groups@, gv, b, pl, p, e, en, 2);
    }
    let ghost before = groups@;
    let ghost gv = g5@;
    push_group(&mut groups, ParamType::Pointer, g5);
    proof {
        lemma_set_step(before, groups@, gv, b, pl, p, e, en, 3);
    }
    let ghost before = groups@;
    let ghost gv = g3@;
    push_group(&mut groups, ParamType::String, g3);
    proof {
        lemma_set_step(before, groups@, gv, b, pl, p, e, en, 4);
    }
    let ghost before = groups@;
    let ghost gv = g4@;
    push_group(&mut groups, ParamType::Vector3F, g4);
    proof {
        lemma_set_step(before, groups@, gv, b, pl, p, e, en, 5);
    }
    Ok(groups)
}

} // verus!
