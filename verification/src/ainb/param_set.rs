use vstd::prelude::*;
use crate::ainb::node::read_string;
use crate::ainb::parameter::{flags_from_raw, param_type_name, OutputParam, ParamSource, ParamType};
use crate::ainb::property::{kind_at, kind_of, read_value, sorted_kind, value_bytes, value_is, value_ok, AinbValue};
use crate::binary::{c_string_at, signed16, u16_at, u32_at, BinaryReader, Endian};
use crate::error::{invalid, Error, ErrorKind};
use vstd::string::StringExecFns;

verus! {

/// An input parameter of a node: its name, class name (for a pointer), default value,
/// and where its value comes from: one source, or a run of the multi-source table; a
/// single source may be marked as setting a blackboard entry.
#[derive(Clone, Debug)]
pub struct InputParam {
    pub name: String,
    pub classname: Option<String>,
    pub default_value: AinbValue,
    pub sources: Option<Vec<ParamSource>>,
    pub source: Option<ParamSource>,
    pub is_set_blackboard: bool,
}

/// Where the source record of an input record at `q` lies.
pub open spec fn source_at(q: int, kind: ParamType) -> int {
    if kind == ParamType::Pointer {
        q + 8
    } else {
        q + 4
    }
}

/// The bytes an input record of type `kind` takes.
pub open spec fn input_bytes(kind: ParamType) -> int {
    match kind {
        ParamType::Vector3F => 0x18,
        ParamType::Pointer => 0x14,
        _ => 0x10,
    }
}

/// The node index of the source of the input record at `q`.
pub open spec fn source_node(b: Seq<u8>, q: int, e: Endian, kind: ParamType) -> int {
    signed16(u16_at(b, source_at(q, kind), e) as int)
}

/// The output index of the source of the input record at `q`.
pub open spec fn source_output(b: Seq<u8>, q: int, e: Endian, kind: ParamType) -> int {
    signed16(u16_at(b, source_at(q, kind) + 2, e) as int)
}

/// Whether the input record of type `kind` at `q` can be read: its strings, its source
/// and default value, and, for a node index of -100 or less, a run of `-100 - node`
/// onwards, as long as the output index, within the multi-source table.
pub open spec fn input_ok(b: Seq<u8>, pool: int, q: int, e: Endian, kind: ParamType, multi_len: int) -> bool {
    let s = source_at(q, kind);
    let node = source_node(b, q, e, kind);
    let out = source_output(b, q, e, kind);
    &&& q + 4 <= b.len()
    &&& c_string_at(b, pool + u32_at(b, q, e)) is Some
    &&& kind == ParamType::Pointer ==> q + 8 <= b.len() && c_string_at(b, pool + u32_at(b, q + 4, e)) is Some
    &&& s + 8 <= b.len()
    &&& value_ok(b, pool, s + 8, e, kind, false)
    &&& node <= -100 ==> out >= 0 && -100 - node + out <= multi_len
}

/// Whether `x` is the input record of type `kind` at `q`, with `multi` the
/// multi-source table.
pub open spec fn input_is(x: InputParam, b: Seq<u8>, pool: int, q: int, e: Endian, kind: ParamType, multi: Seq<ParamSource>) -> bool {
    let s = source_at(q, kind);
    let node = source_node(b, q, e, kind);
    let out = source_output(b, q, e, kind);
    &&& c_string_at(b, pool + u32_at(b, q, e)) == Some(x.name@)
    &&& if kind == ParamType::Pointer {
        x.classname matches Some(c) && c_string_at(b, pool + u32_at(b, q + 4, e)) == Some(c@)
    } else {
        x.classname is None
    }
    &&& value_is(x.default_value, b, pool, s + 8, e, kind)
    &&& if node <= -100 {
        &&& x.source is None
        &&& !x.is_set_blackboard
        &&& x.sources matches Some(v) && v@.len() == out && forall|i: int|
            0 <= i < out ==> {
                let m = multi[-100 - node + i];
                &&& (#[trigger] v@[i]).node_index == m.node_index
                &&& v@[i].output_index == m.output_index
                &&& v@[i].flags.view() == m.flags.view()
            }
    } else {
        &&& x.sources is None
        &&& x.is_set_blackboard == (out < 0)
        &&& x.source matches Some(src) && src.node_index == node && src.output_index == (if out < 0 {
            (out + 0x1_0000) % 0x8000
        } else {
            out
        }) && src.flags.view() == flags_from_raw(u32_at(b, s + 4, e))
    }
}

impl InputParam {
    /// Reads an input record of type `kind` at the cursor: the name's pool offset, for
    /// a pointer the class name's, a source record and the default value, which for a
    /// pointer must be zero. A node index of -100 or less stands for the run of the
    /// multi-source table that starts at `-100 - node` and is as long as the output
    /// index; otherwise a negative output index marks a source that sets a blackboard
    /// entry, its low 15 bits the index. Fails with `InvalidData` for a nonzero pointer
    /// default or a run outside the table, and as the reads do otherwise.
    #[verifier::rlimit(40)]
    pub fn read(reader: &mut BinaryReader<'_>, pool: usize, kind: ParamType, multi: &[ParamSource]) -> (r: Result<Self, Error>)
        requires
            old(reader).wf(),
        ensures
            final(reader).wf(),
            final(reader).bytes() == old(reader).bytes(),
            final(reader).order() == old(reader).order(),
            r is Ok <==> input_ok(old(reader).bytes(), pool as int, old(reader).pos(), old(reader).order(), kind, multi@.len() as int),
            r matches Ok(x) ==> input_is(x, old(reader).bytes(), pool as int, old(reader).pos(), old(reader).order(), kind, multi@)
                && final(reader).pos() == old(reader).pos() + input_bytes(kind),
            r matches Err(e) ==> e.kind == ErrorKind::UnexpectedEof || e.kind == ErrorKind::InvalidData,
    {
        let name = read_string(reader, pool)?;
        let classname = if kind == ParamType::Pointer {
            Some(read_string(reader, pool)?)
        } else {
            None
        };
        let source = ParamSource::read(reader)?;
        let default_value = read_value(reader, pool, kind, false)?;
        if source.node_index <= -100 {
            if source.output_index < 0 {
                return Err(invalid("multi-source range exceeds table"));
            }
            let index = (-100i32 - source.node_index as i32) as usize;
            let count = source.output_index as usize;
            if index > multi.len() || count > multi.len() - index {
                return Err(invalid("multi-source range exceeds table"));
            }
            let n = multi.len();
            let mut values: Vec<ParamSource> = Vec::new();
            let mut i: usize = 0;
            while i < count
                invariant
                    n == multi@.len(),
                    i <= count,
                    index + count <= multi@.len(),
                    values@.len() == i,
                    forall|j: int|
                        0 <= j < i ==> {
                            let m = multi@[index + j];
                            &&& (#[trigger] values@[j]).node_index == m.node_index
                            &&& values@[j].output_index == m.output_index
                            &&& values@[j].flags.view() == m.flags.view()
                        },
                decreases count - i,
            {
                values.push(multi[index + i].duplicate());
                i = i + 1;
            }
            Ok(InputParam { name, classname, default_value, sources: Some(values), source: None, is_set_blackboard: false })
        } else {
            let is_set_blackboard = source.output_index < 0;
            let output_index = if is_set_blackboard {
                let bits = crate::binary::from_i16(source.output_index);
                let low = bits & 0x7fff;
                assert(low == bits % 0x8000 && low < 0x8000) by (bit_vector)
                    requires
                        low == bits & 0x7fff,
                ;
                crate::binary::to_i16(low)
            } else {
                source.output_index
            };
            let source = ParamSource { node_index: source.node_index, output_index, flags: source.flags };
            Ok(InputParam { name, classname, default_value, sources: None, source: Some(source), is_set_blackboard })
        }
    }
}

/// The bytes an output record of type `kind` takes.
pub open spec fn output_bytes(kind: ParamType) -> int {
    if kind == ParamType::Pointer {
        8
    } else {
        4
    }
}

/// Whether the output record of type `kind` at `q` can be read: its name, and for a
/// pointer its class name.
pub open spec fn output_ok(b: Seq<u8>, pool: int, q: int, e: Endian, kind: ParamType) -> bool {
    &&& q + 4 <= b.len()
    &&& c_string_at(b, pool + (u32_at(b, q, e) & 0x3fff_ffff)) is Some
    &&& kind == ParamType::Pointer ==> q + 8 <= b.len() && c_string_at(b, pool + u32_at(b, q + 4, e)) is Some
}

/// Whether `o` is the output record of type `kind` at `q`.
pub open spec fn output_is(o: OutputParam, b: Seq<u8>, pool: int, q: int, e: Endian, kind: ParamType) -> bool {
    &&& c_string_at(b, pool + (u32_at(b, q, e) & 0x3fff_ffff)) == Some(o.name@)
    &&& o.is_output == (u32_at(b, q, e) >> 31 != 0)
    &&& if kind == ParamType::Pointer {
        o.classname matches Some(c) && c_string_at(b, pool + u32_at(b, q + 4, e)) == Some(c@)
    } else {
        o.classname is None
    }
}

fn read_inputs(reader: &mut BinaryReader<'_>, pool: usize, kind: ParamType, count: usize, multi: &[ParamSource]) -> (r: Result<Vec<InputParam>, Error>)
    requires
        old(reader).wf(),
    ensures
        final(reader).wf(),
        final(reader).bytes() == old(reader).bytes(),
        final(reader).order() == old(reader).order(),
        r is Ok <==> forall|i: int|
            0 <= i < count ==> input_ok(
                old(reader).bytes(),
                pool as int,
                #[trigger] (old(reader).pos() + input_bytes(kind) * i),
                old(reader).order(),
                kind,
                multi@.len() as int,
            ),
        r matches Ok(v) ==> {
            &&& v@.len() == count
            &&& forall|i: int|
                0 <= i < count ==> input_is(
                    #[trigger] v@[i],
                    old(reader).bytes(),
                    pool as int,
                    old(reader).pos() + input_bytes(kind) * i,
                    old(reader).order(),
                    kind,
                    multi@,
                )
            &&& final(reader).pos() == old(reader).pos() + input_bytes(kind) * count
        },
        r matches Err(e) ==> e.kind == ErrorKind::UnexpectedEof || e.kind == ErrorKind::InvalidData,
{
    let ghost b = reader.bytes();
    let ghost p = reader.pos();
    let ghost e = reader.order();
    let ghost w = input_bytes(kind);
    let mut v: Vec<InputParam> = Vec::new();
    let mut i: usize = 0;
    while i < count
        invariant
            reader.wf(),
            reader.bytes() == b,
            reader.order() == e,
            b == old(reader).bytes(),
            e == old(reader).order(),
            p == old(reader).pos(),
            w == input_bytes(kind),
            i <= count,
            reader.pos() == p + w * i,
            v@.len() == i,
            forall|j: int| 0 <= j < i ==> input_ok(b, pool as int, #[trigger] (p + w * j), e, kind, multi@.len() as int),
            forall|j: int| 0 <= j < i ==> input_is(#[trigger] v@[j], b, pool as int, p + w * j, e, kind, multi@),
        decreases count - i,
    {
        let x = match InputParam::read(reader, pool, kind, multi) {
            Ok(x) => x,
            Err(err) => {
                assert(!input_ok(b, pool as int, p + w * i, e, kind, multi@.len() as int));
                return Err(err);
            },
        };
        v.push(x);
        assert(w * (i + 1) == w * i + w) by (nonlinear_arith);
        i = i + 1;
    }
    Ok(v)
}

fn read_outputs(reader: &mut BinaryReader<'_>, pool: usize, kind: ParamType, count: usize) -> (r: Result<Vec<OutputParam>, Error>)
    requires
        old(reader).wf(),
    ensures
        final(reader).wf(),
        final(reader).bytes() == old(reader).bytes(),
        final(reader).order() == old(reader).order(),
        r is Ok <==> forall|i: int|
            0 <= i < count ==> output_ok(
                old(reader).bytes(),
                pool as int,
                #[trigger] (old(reader).pos() + output_bytes(kind) * i),
                old(reader).order(),
                kind,
            ),
        r matches Ok(v) ==> {
            &&& v@.len() == count
            &&& forall|i: int|
                0 <= i < count ==> output_is(
                    #[trigger] v@[i],
                    old(reader).bytes(),
                    pool as int,
                    old(reader).pos() + output_bytes(kind) * i,
                    old(reader).order(),
                    kind,
                )
            &&& final(reader).pos() == old(reader).pos() + output_bytes(kind) * count
        },
        r matches Err(e) ==> e.kind == ErrorKind::UnexpectedEof || e.kind == ErrorKind::InvalidData,
{
    let ghost b = reader.bytes();
    let ghost p = reader.pos();
    let ghost e = reader.order();
    let ghost w = output_bytes(kind);
    let mut v: Vec<OutputParam> = Vec::new();
    let mut i: usize = 0;
    while i < count
        invariant
            reader.wf(),
            reader.bytes() == b,
            reader.order() == e,
            b == old(reader).bytes(),
            e == old(reader).order(),
            p == old(reader).pos(),
            w == output_bytes(kind),
            i <= count,
            reader.pos() == p + w * i,
            v@.len() == i,
            forall|j: int| 0 <= j < i ==> output_ok(b, pool as int, #[trigger] (p + w * j), e, kind),
            forall|j: int| 0 <= j < i ==> output_is(#[trigger] v@[j], b, pool as int, p + w * j, e, kind),
        decreases count - i,
    {
        let x = match OutputParam::read(reader, pool, kind) {
            Ok(x) => x,
            Err(err) => {
                assert(!output_ok(b, pool as int, p + w * i, e, kind));
                return Err(err);
            },
        };
        v.push(x);
        assert(w * (i + 1) == w * i + w) by (nonlinear_arith);
        i = i + 1;
    }
    Ok(v)
}

/// The inputs and outputs of a node, each grouped by type name in the order of the
/// names, each group holding at least one record.
#[derive(Clone, Debug)]
pub struct ParamSet {
    pub inputs: Vec<(String, Vec<InputParam>)>,
    pub outputs: Vec<(String, Vec<OutputParam>)>,
}

/// The input offset of group `k` in the table at `p`.
pub open spec fn inputs_at(b: Seq<u8>, p: int, e: Endian, k: int) -> int {
    u32_at(b, p + 8 * k, e) as int
}

/// The output offset of group `k` in the table at `p`.
pub open spec fn outputs_at(b: Seq<u8>, p: int, e: Endian, k: int) -> int {
    u32_at(b, p + 8 * k + 4, e) as int
}

/// Where the outputs of group `k` end: at the next group's input offset, or at `end`.
pub open spec fn outputs_end(b: Seq<u8>, p: int, e: Endian, k: int, end: int) -> int {
    if k < 5 {
        inputs_at(b, p, e, k + 1)
    } else {
        end
    }
}

/// The number of input records of group `k`.
pub open spec fn input_count(b: Seq<u8>, p: int, e: Endian, k: int) -> int {
    (outputs_at(b, p, e, k) - inputs_at(b, p, e, k)) / input_bytes(kind_at(k))
}

/// The number of output records of group `k`.
pub open spec fn output_count(b: Seq<u8>, p: int, e: Endian, k: int, end: int) -> int {
    (outputs_end(b, p, e, k, end) - outputs_at(b, p, e, k)) / output_bytes(kind_at(k))
}

/// Whether group `k` of the parameter set at `p` can be read: its offsets in order and
/// within the input, and readable records.
#[verifier::opaque]
pub open spec fn io_group_ok(b: Seq<u8>, pool: int, p: int, e: Endian, end: int, k: int, multi_len: int) -> bool {
    let kind = kind_at(k);
    let io = inputs_at(b, p, e, k);
    let oo = outputs_at(b, p, e, k);
    &&& io <= oo
    &&& oo <= outputs_end(b, p, e, k, end)
    &&& io <= b.len()
    &&& oo <= b.len()
    &&& forall|i: int|
        0 <= i < input_count(b, p, e, k) ==> input_ok(b, pool, #[trigger] (io + input_bytes(kind) * i), e, kind, multi_len)
    &&& forall|i: int|
        0 <= i < output_count(b, p, e, k, end) ==> output_ok(b, pool, #[trigger] (oo + output_bytes(kind) * i), e, kind)
}

/// Whether `g` holds the input records of group `k`, in order.
#[verifier::opaque]
pub open spec fn inputs_are(g: Seq<InputParam>, b: Seq<u8>, pool: int, p: int, e: Endian, k: int, multi: Seq<ParamSource>) -> bool {
    &&& g.len() == input_count(b, p, e, k)
    &&& forall|i: int|
        0 <= i < g.len() ==> input_is(
            #[trigger] g[i],
            b,
            pool,
            inputs_at(b, p, e, k) + input_bytes(kind_at(k)) * i,
            e,
            kind_at(k),
            multi,
        )
}

/// Whether `g` holds the output records of group `k`, in order.
#[verifier::opaque]
pub open spec fn outputs_are(g: Seq<OutputParam>, b: Seq<u8>, pool: int, p: int, e: Endian, end: int, k: int) -> bool {
    &&& g.len() == output_count(b, p, e, k, end)
    &&& forall|i: int|
        0 <= i < g.len() ==> output_is(
            #[trigger] g[i],
            b,
            pool,
            outputs_at(b, p, e, k) + output_bytes(kind_at(k)) * i,
            e,
            kind_at(k),
        )
}

/// Whether the parameter set whose offset table is at `p` can be read.
pub open spec fn param_set_ok(b: Seq<u8>, pool: int, p: int, e: Endian, end: int, multi_len: int) -> bool {
    &&& p + 48 <= b.len()
    &&& forall|k: int| 0 <= k < 6 ==> #[trigger] io_group_ok(b, pool, p, e, end, k, multi_len)
}

/// The groups, in name order among the first `t`, that hold at least one input.
pub open spec fn present_inputs(b: Seq<u8>, p: int, e: Endian, t: int) -> Seq<int>
    decreases t,
{
    if t <= 0 {
        Seq::empty()
    } else {
        let r = present_inputs(b, p, e, t - 1);
        if input_count(b, p, e, sorted_kind(t - 1)) > 0 {
            r.push(sorted_kind(t - 1))
        } else {
            r
        }
    }
}

/// The groups, in name order among the first `t`, that hold at least one output.
pub open spec fn present_outputs(b: Seq<u8>, p: int, e: Endian, end: int, t: int) -> Seq<int>
    decreases t,
{
    if t <= 0 {
        Seq::empty()
    } else {
        let r = present_outputs(b, p, e, end, t - 1);
        if output_count(b, p, e, sorted_kind(t - 1), end) > 0 {
            r.push(sorted_kind(t - 1))
        } else {
            r
        }
    }
}

/// Whether `inputs` are the first `t` non-empty input groups, in name order.
pub open spec fn input_groups_are(inputs: Seq<(String, Vec<InputParam>)>, b: Seq<u8>, pool: int, p: int, e: Endian, t: int, multi: Seq<ParamSource>) -> bool {
    let kinds = present_inputs(b, p, e, t);
    &&& inputs.len() == kinds.len()
    &&& forall|m: int|
        0 <= m < inputs.len() ==> (#[trigger] inputs[m]).0@ == param_type_name(kind_at(kinds[m])) && inputs_are(
            inputs[m].1@,
            b,
            pool,
            p,
            e,
            kinds[m],
            multi,
        )
}

/// Whether `outputs` are the first `t` non-empty output groups, in name order.
pub open spec fn output_groups_are(outputs: Seq<(String, Vec<OutputParam>)>, b: Seq<u8>, pool: int, p: int, e: Endian, end: int, t: int) -> bool {
    let kinds = present_outputs(b, p, e, end, t);
    &&& outputs.len() == kinds.len()
    &&& forall|m: int|
        0 <= m < outputs.len() ==> (#[trigger] outputs[m]).0@ == param_type_name(kind_at(kinds[m])) && outputs_are(
            outputs[m].1@,
            b,
            pool,
            p,
            e,
            end,
            kinds[m],
        )
}

fn read_io_group(reader: &mut BinaryReader<'_>, pool: usize, k: usize, io: usize, oo: usize, oe: usize, multi: &[ParamSource]) -> (r: Result<(Vec<InputParam>, Vec<OutputParam>), Error>)
    requires
        old(reader).wf(),
        k < 6,
    ensures
        final(reader).wf(),
        final(reader).bytes() == old(reader).bytes(),
        final(reader).order() == old(reader).order(),
        ({
            let b = old(reader).bytes();
            let e = old(reader).order();
            let kind = kind_at(k as int);
            let ic = (oo - io) / input_bytes(kind);
            let oc = (oe - oo) / output_bytes(kind);
            &&& r is Ok <==> io <= oo && oo <= oe && io <= b.len() && oo <= b.len() && (forall|i: int|
                0 <= i < ic ==> input_ok(b, pool as int, #[trigger] (io + input_bytes(kind) * i), e, kind, multi@.len() as int))
                && (forall|i: int| 0 <= i < oc ==> output_ok(b, pool as int, #[trigger] (oo + output_bytes(kind) * i), e, kind))
            &&& r matches Ok((ins, outs)) ==> {
                &&& ins@.len() == ic
                &&& forall|i: int| 0 <= i < ic ==> input_is(#[trigger] ins@[i], b, pool as int, io + input_bytes(kind) * i, e, kind, multi@)
                &&& outs@.len() == oc
                &&& forall|i: int| 0 <= i < oc ==> output_is(#[trigger] outs@[i], b, pool as int, oo + output_bytes(kind) * i, e, kind)
                &&& final(reader).pos() == oo + output_bytes(kind) * oc
            }
        }),
        r matches Err(e) ==> e.kind == ErrorKind::UnexpectedEof || e.kind == ErrorKind::InvalidData,
{
    let kind = kind_of(k);
    if io > oo || oo > oe {
        return Err(invalid("I/O parameter offsets are not ordered"));
    }
    let _ = reader.seek(io)?;
    let isize: usize = match kind {
        ParamType::Vector3F => 0x18,
        ParamType::Pointer => 0x14,
        _ => 0x10,
    };
    let inputs = read_inputs(reader, pool, kind, (oo - io) / isize, multi)?;
    let _ = reader.seek(oo)?;
    let osize: usize = if kind == ParamType::Pointer {
        8
    } else {
        4
    };
    let outputs = read_outputs(reader, pool, kind, (oe - oo) / osize)?;
    Ok((inputs, outputs))
}

/// Appends `g` under the name of `kind`, unless it is empty.
fn push_inputs(groups: &mut Vec<(String, Vec<InputParam>)>, kind: ParamType, g: Vec<InputParam>)
    ensures
        g@.len() > 0 ==> final(groups)@.len() == old(groups)@.len() + 1 && final(groups)@.drop_last() == old(groups)@
            && final(groups)@.last().0@ == param_type_name(kind) && final(groups)@.last().1@ == g@,
        g@.len() == 0 ==> final(groups)@ == old(groups)@,
{
    if g.len() > 0 {
        groups.push((String::from_str(kind.name()), g));
    }
}

/// Appends `g` under the name of `kind`, unless it is empty.
fn push_outputs(groups: &mut Vec<(String, Vec<OutputParam>)>, kind: ParamType, g: Vec<OutputParam>)
    ensures
        g@.len() > 0 ==> final(groups)@.len() == old(groups)@.len() + 1 && final(groups)@.drop_last() == old(groups)@
            && final(groups)@.last().0@ == param_type_name(kind) && final(groups)@.last().1@ == g@,
        g@.len() == 0 ==> final(groups)@ == old(groups)@,
{
    if g.len() > 0 {
        groups.push((String::from_str(kind.name()), g));
    }
}

proof fn lemma_inputs_step(
    before: Seq<(String, Vec<InputParam>)>,
    after: Seq<(String, Vec<InputParam>)>,
    g: Seq<InputParam>,
    b: Seq<u8>,
    pool: int,
    p: int,
    e: Endian,
    t: int,
    multi: Seq<ParamSource>,
)
    requires
        0 <= t < 6,
        input_groups_are(before, b, pool, p, e, t, multi),
        inputs_are(g, b, pool, p, e, sorted_kind(t), multi),
        g.len() > 0 ==> after.len() == before.len() + 1 && after.drop_last() == before && after.last().0@
            == param_type_name(kind_at(sorted_kind(t))) && after.last().1@ == g,
        g.len() == 0 ==> after == before,
    ensures
        input_groups_are(after, b, pool, p, e, t + 1, multi),
{
    reveal(inputs_are);
    let k = sorted_kind(t);
    if g.len() > 0 {
        assert(present_inputs(b, p, e, t + 1) == present_inputs(b, p, e, t).push(k));
        assert forall|m: int| 0 <= m < after.len() implies (#[trigger] after[m]).0@ == param_type_name(
            kind_at(present_inputs(b, p, e, t + 1)[m]),
        ) && inputs_are(after[m].1@, b, pool, p, e, present_inputs(b, p, e, t + 1)[m], multi) by {
            if m < before.len() {
                assert(after[m] == after.drop_last()[m]);
            }
        }
    } else {
        assert(present_inputs(b, p, e, t + 1) == present_inputs(b, p, e, t));
    }
}

proof fn lemma_outputs_step(
    before: Seq<(String, Vec<OutputParam>)>,
    after: Seq<(String, Vec<OutputParam>)>,
    g: Seq<OutputParam>,
    b: Seq<u8>,
    pool: int,
    p: int,
    e: Endian,
    end: int,
    t: int,
)
    requires
        0 <= t < 6,
        output_groups_are(before, b, pool, p, e, end, t),
        outputs_are(g, b, pool, p, e, end, sorted_kind(t)),
        g.len() > 0 ==> after.len() == before.len() + 1 && after.drop_last() == before && after.last().0@
            == param_type_name(kind_at(sorted_kind(t))) && after.last().1@ == g,
        g.len() == 0 ==> after == before,
    ensures
        output_groups_are(after, b, pool, p, e, end, t + 1),
{
    reveal(outputs_are);
    let k = sorted_kind(t);
    if g.len() > 0 {
        assert(present_outputs(b, p, e, end, t + 1) == present_outputs(b, p, e, end, t).push(k));
        assert forall|m: int| 0 <= m < after.len() implies (#[trigger] after[m]).0@ == param_type_name(
            kind_at(present_outputs(b, p, e, end, t + 1)[m]),
        ) && outputs_are(after[m].1@, b, pool, p, e, end, present_outputs(b, p, e, end, t + 1)[m]) by {
            if m < before.len() {
                assert(after[m] == after.drop_last()[m]);
            }
        }
    } else {
        assert(present_outputs(b, p, e, end, t + 1) == present_outputs(b, p, e, end, t));
    }
}

/// Reads a parameter set at the cursor: for each type in file order an input offset
/// and an output offset; a group's inputs run to its output offset and its outputs to
/// the next group's input offset (the last to `end_offset`), as whole records. Groups
/// with no record are left out; the others come in the order of their type names.
/// Fails with `InvalidData` when a group's offsets are out of order, and as the reads
/// do otherwise. The cursor ends after the pointer outputs.
#[verifier::rlimit(100)]
pub fn read_param_set(reader: &mut BinaryReader<'_>, pool: usize, end_offset: usize, multi: &[ParamSource]) -> (r: Result<ParamSet, Error>)
    requires
        old(reader).wf(),
    ensures
        final(reader).wf(),
        final(reader).bytes() == old(reader).bytes(),
        final(reader).order() == old(reader).order(),
        r is Ok <==> param_set_ok(old(reader).bytes(), pool as int, old(reader).pos(), old(reader).order(), end_offset as int, multi@.len() as int),
        r matches Ok(set) ==> {
            let b = old(reader).bytes();
            let p = old(reader).pos();
            let e = old(reader).order();
            &&& input_groups_are(set.inputs@, b, pool as int, p, e, 6, multi@)
            &&& output_groups_are(set.outputs@, b, pool as int, p, e, end_offset as int, 6)
            &&& final(reader).pos() == outputs_at(b, p, e, 5) + 8 * output_count(b, p, e, 5, end_offset as int)
        },
        r matches Err(e) ==> e.kind == ErrorKind::UnexpectedEof || e.kind == ErrorKind::InvalidData,
{
    let ghost b = reader.bytes();
    let ghost p = reader.pos();
    let ghost e = reader.order();
    let ghost en = end_offset as int;
    let ghost ml = multi@.len() as int;
    if reader.position() > reader.len() || reader.len() - reader.position() < 48 {
        return Err(crate::error::eof("AINB parameter table is truncated"));
    }
    let mut offsets: Vec<(usize, usize)> = Vec::new();
    let mut k: usize = 0;
    while k < 6
        invariant
            reader.wf(),
            reader.bytes() == b,
            reader.order() == e,
            b == old(reader).bytes(),
            e == old(reader).order(),
            p == old(reader).pos(),
            p + 48 <= b.len(),
            k <= 6,
            reader.pos() == p + 8 * k,
            offsets@.len() == k,
            forall|j: int| 0 <= j < k ==> (#[trigger] offsets@[j]).0 == inputs_at(b, p, e, j) && offsets@[j].1 == outputs_at(b, p, e, j),
        decreases 6 - k,
    {
        let i = reader.read_u32()?;
        let o = reader.read_u32()?;
        offsets.push((i as usize, o as usize));
        k = k + 1;
    }
    let mut i0: Vec<InputParam> = Vec::new();
    let mut o0: Vec<OutputParam> = Vec::new();
    let mut i1: Vec<InputParam> = Vec::new();
    let mut o1: Vec<OutputParam> = Vec::new();
    let mut i2: Vec<InputParam> = Vec::new();
    let mut o2: Vec<OutputParam> = Vec::new();
    let mut i3: Vec<InputParam> = Vec::new();
    let mut o3: Vec<OutputParam> = Vec::new();
    let mut i4: Vec<InputParam> = Vec::new();
    let mut o4: Vec<OutputParam> = Vec::new();
    let mut i5: Vec<InputParam> = Vec::new();
    let mut o5: Vec<OutputParam> = Vec::new();
    let ghost pl = pool as int;
    let mut k: usize = 0;
    while k < 6
        invariant
            reader.wf(),
            reader.bytes() == b,
            reader.order() == e,
            b == old(reader).bytes(),
            e == old(reader).order(),
            p == old(reader).pos(),
            en == end_offset,
            ml == multi@.len(),
            pl == pool,
            p + 48 <= b.len(),
            k <= 6,
            offsets@.len() == 6,
            forall|j: int| 0 <= j < 6 ==> (#[trigger] offsets@[j]).0 == inputs_at(b, p, e, j) && offsets@[j].1 == outputs_at(b, p, e, j),
            forall|j: int| 0 <= j < k ==> #[trigger] io_group_ok(b, pl, p, e, en, j, ml),
            k > 0 ==> inputs_are(i0@, b, pl, p, e, 0, multi@) && outputs_are(o0@, b, pl, p, e, en, 0),
            k > 1 ==> inputs_are(i1@, b, pl, p, e, 1, multi@) && outputs_are(o1@, b, pl, p, e, en, 1),
            k > 2 ==> inputs_are(i2@, b, pl, p, e, 2, multi@) && outputs_are(o2@, b, pl, p, e, en, 2),
            k > 3 ==> inputs_are(i3@, b, pl, p, e, 3, multi@) && outputs_are(o3@, b, pl, p, e, en, 3),
            k > 4 ==> inputs_are(i4@, b, pl, p, e, 4, multi@) && outputs_are(o4@, b, pl, p, e, en, 4),
            k > 5 ==> inputs_are(i5@, b, pl, p, e, 5, multi@) && outputs_are(o5@, b, pl, p, e, en, 5),
            k > 5 ==> reader.pos() == outputs_at(b, p, e, 5) + 8 * output_count(b, p, e, 5, en),
        decreases 6 - k,
    {
        let io = offsets[k].0;
        let oo = offsets[k].1;
        let oe = if k < 5 {
            offsets[k + 1].0
        } else {
            end_offset
        };
        assert(oe == outputs_end(b, p, e, k as int, en));
        let (ins, outs) = match read_io_group(reader, pool, k, io, oo, oe, multi) {
            Ok(v) => v,
            Err(err) => {
                assert(!io_group_ok(b, pl, p, e, en, k as int, ml)) by {
                    reveal(io_group_ok);
                }
                return Err(err);
            },
        };
        assert(io_group_ok(b, pl, p, e, en, k as int, ml) && inputs_are(ins@, b, pl, p, e, k as int, multi@)
            && outputs_are(outs@, b, pl, p, e, en, k as int)) by {
            reveal(io_group_ok);
            reveal(inputs_are);
            reveal(outputs_are);
        }
        if k == 0 {
            i0 = ins;
            o0 = outs;
        } else if k == 1 {
            i1 = ins;
            o1 = outs;
        } else if k == 2 {
            i2 = ins;
            o2 = outs;
        } else if k == 3 {
            i3 = ins;
            o3 = outs;
        } else if k == 4 {
            i4 = ins;
            o4 = outs;
        } else {
            i5 = ins;
            o5 = outs;
        }
        k = k + 1;
    }
    let mut inputs: Vec<(String, Vec<InputParam>)> = Vec::new();
    let mut outputs: Vec<(String, Vec<OutputParam>)> = Vec::new();
    assert(input_groups_are(inputs@, b, pl, p, e, 0, multi@));
    assert(output_groups_are(outputs@, b, pl, p, e, en, 0));
    let ghost before_in = inputs@;
    let ghost before_out = outputs@;
    let ghost iv = i1@;
    let ghost ov = o1@;
    push_inputs(&mut inputs, ParamType::Bool, i1);
    push_outputs(&mut outputs, ParamType::Bool, o1);
    proof {
        lemma_inputs_step(before_in, inputs@, iv, b, pl, p, e, 0, multi@);
        lemma_outputs_step(before_out, outputs@, ov, b, pl, p, e, en, 0);
    }
    let ghost before_in = inputs@;
    let ghost before_out = outputs@;
    let ghost iv = i2@;
    let ghost ov = o2@;
    push_inputs(&mut inputs, ParamType::Float, i2);
    push_outputs(&mut outputs, ParamType::Float, o2);
    proof {
        lemma_inputs_step(before_in, inputs@, iv, b, pl, p, e, 1, multi@);
        lemma_outputs_step(before_out, outputs@, ov, b, pl, p, e, en, 1);
    }
    let ghost before_in = inputs@;
    let ghost before_out = outputs@;
    let ghost iv = i0@;
    let ghost ov = o0@;
    push_inputs(&mut inputs, ParamType::Int, i0);
    push_outputs(&mut outputs, ParamType::Int, o0);
    proof {
        lemma_inputs_step(before_in, inputs@, iv, b, pl, p, e, 2, multi@);
        lemma_outputs_step(before_out, outputs@, ov, b, pl, p, e, en, 2);
    }
    let ghost before_in = inputs@;
    let ghost before_out = outputs@;
    let ghost iv = i5@;
    let ghost ov = o5@;
    push_inputs(&mut inputs, ParamType::Pointer, i5);
    push_outputs(&mut outputs, ParamType::Pointer, o5);
    proof {
        lemma_inputs_step(before_in, inputs@, iv, b, pl, p, e, 3, multi@);
        lemma_outputs_step(before_out, outputs@, ov, b, pl, p, e, en, 3);
    }
    let ghost before_in = inputs@;
    let ghost before_out = outputs@;
    let ghost iv = i3@;
    let ghost ov = o3@;
    push_inputs(&mut inputs, ParamType::String, i3);
    push_outputs(&mut outputs, ParamType::String, o3);
    proof {
        lemma_inputs_step(before_in, inputs@, iv, b, pl, p, e, 4, multi@);
        lemma_outputs_step(before_out, outputs@, ov, b, pl, p, e, en, 4);
    }
    let ghost before_in = inputs@;
    let ghost before_out = outputs@;
    let ghost iv = i4@;
    let ghost ov = o4@;
    push_inputs(&mut inputs, ParamType::Vector3F, i4);
    push_outputs(&mut outputs, ParamType::Vector3F, o4);
    proof {
        lemma_inputs_step(before_in, inputs@, iv, b, pl, p, e, 5, multi@);
        lemma_outputs_step(before_out, outputs@, ov, b, pl, p, e, en, 5);
    }
    Ok(ParamSet { inputs, outputs })
}

} // verus!
