use vstd::prelude::*;
use crate::asb::node_connections::{conn_count, conn_offset, connections_are, connections_ok, NodeConnections};
use crate::asb::node_tables::{read_at, read_tags, tag_offset, tags_readable};
use crate::asb::parameter::{
    parameter_matches, pool_text, read_parameter, value_readable, value_size, AsbParameter, ParamValue,
    ParameterType,
};
use crate::asb::node_type::NodeType;
use crate::binary::{c_string_at, u32_at, BinaryReader, Endian};
use crate::error::{invalid, Error, ErrorKind};
use crate::text::str_eq;
use vstd::string::StrSliceExecFns;

verus! {

/// How one field of a node body is stored.
#[derive(Clone, Copy, Debug, PartialEq, Eq, Structural)]
pub enum Op {
    /// A parameter of the given type.
    Param(ParameterType),
    /// A 32-bit word.
    Word,
    /// A 32-bit word read as a flag: set when not zero.
    Flag,
    /// A 32-bit index into the file's event table.
    Event,
    /// The offset of a tag list; the field is left out when the offset is zero.
    Tags,
    /// The offset of a tag list; an offset of `u32::MAX` stands for no tags.
    TagList,
    /// A string parameter naming a bone group; the field is left out unless it is a
    /// stored string that some bone group has as its name.
    BoneGroup,
    /// Eight unused bytes.
    Skip,
}

/// A field of a node body: its key and how it is stored.
#[derive(Clone, Copy, Debug)]
pub struct Step {
    pub key: &'static str,
    pub op: Op,
}

/// The value of a field of a node body.
#[derive(Clone, Debug)]
pub enum FieldValue {
    Param(AsbParameter),
    Word(u32),
    Flag(bool),
    /// The index of an entry of the file's event table.
    Event(u32),
    Tags(Vec<String>),
    /// The index of the first bone group with the named name.
    BoneGroup(usize),
}

/// What a node body is read against: the file version, the lengths of the event and
/// 0x2C tables, and the names of the bone groups in table order.
#[derive(Clone, Debug)]
pub struct AsbContext {
    pub version: u32,
    pub event_count: usize,
    pub x2c_count: usize,
    pub bone_group_names: Vec<String>,
}

/// The bytes a field takes.
pub open spec fn op_size(op: Op) -> int {
    match op {
        Op::Param(t) => 4 + value_size(t),
        Op::BoneGroup => 8,
        Op::Skip => 8,
        _ => 4,
    }
}

/// Where field `i` of `steps` starts, the first at `q`.
pub open spec fn step_pos(q: int, steps: Seq<Step>, i: int) -> int
    decreases i,
{
    if i <= 0 {
        q
    } else {
        step_pos(q, steps, i - 1) + op_size(steps[i - 1].op)
    }
}

/// The first of `names` equal to `s`, if any.
pub open spec fn first_named(names: Seq<Seq<char>>, s: Seq<char>) -> Option<int>
    decreases names.len(),
{
    if names.len() == 0 {
        None
    } else {
        match first_named(names.drop_last(), s) {
            Some(i) => Some(i),
            None => if names.last() == s {
                Some(names.len() - 1)
            } else {
                None
            },
        }
    }
}

/// The bone group names of a context, as text.
pub open spec fn group_names(ctx: AsbContext) -> Seq<Seq<char>> {
    ctx.bone_group_names@.map_values(|s: String| s@)
}

/// The bone group a bone-group field at `a` names: the first with the name a stored
/// string parameter there holds.
pub open spec fn named_group(b: Seq<u8>, pool: Seq<u8>, a: int, e: Endian, ctx: AsbContext) -> Option<int> {
    if u32_at(b, a, e) < 0x8000_0000 {
        first_named(group_names(ctx), pool_text(pool, u32_at(b, a + 4, e) as int)->Some_0)
    } else {
        None
    }
}

/// Whether the tag list at `t` can be read.
pub open spec fn tag_list_ok(b: Seq<u8>, pool: Seq<u8>, t: int, e: Endian) -> bool {
    t + 4 <= b.len() && tags_readable(b, pool, t, u32_at(b, t, e) as int, e)
}

/// Whether `v` is the tag list at `t`.
pub open spec fn tag_list_is(v: Seq<String>, b: Seq<u8>, pool: Seq<u8>, t: int, e: Endian) -> bool {
    &&& v.len() == u32_at(b, t, e)
    &&& forall|k: int| 0 <= k < v.len() ==> (#[trigger] v[k])@ == c_string_at(pool, tag_offset(b, t, k, e))->Some_0
}

/// Whether a field stored as `op` at `a` can be read.
pub open spec fn op_ok(b: Seq<u8>, pool: Seq<u8>, a: int, e: Endian, op: Op, ctx: AsbContext) -> bool {
    &&& a + op_size(op) <= b.len()
    &&& match op {
        Op::Param(t) => value_readable(b, pool, a + 4, e, t),
        Op::BoneGroup => value_readable(b, pool, a + 4, e, ParameterType::String),
        Op::Event => u32_at(b, a, e) < ctx.event_count,
        Op::Tags => u32_at(b, a, e) != 0 ==> tag_list_ok(b, pool, u32_at(b, a, e) as int, e),
        Op::TagList => u32_at(b, a, e) != u32::MAX ==> tag_list_ok(b, pool, u32_at(b, a, e) as int, e),
        _ => true,
    }
}

/// Whether a field stored as `op` at `a` appears in the body.
pub open spec fn op_emits(b: Seq<u8>, pool: Seq<u8>, a: int, e: Endian, op: Op, ctx: AsbContext) -> bool {
    match op {
        Op::Skip => false,
        Op::Tags => u32_at(b, a, e) != 0,
        Op::BoneGroup => named_group(b, pool, a, e, ctx) is Some,
        _ => true,
    }
}

/// Whether `v` is the value of a field stored as `op` at `a`.
pub open spec fn op_value(v: FieldValue, b: Seq<u8>, pool: Seq<u8>, a: int, e: Endian, op: Op, ctx: AsbContext) -> bool {
    match op {
        Op::Param(t) => v matches FieldValue::Param(x) && parameter_matches(x, b, pool, a, e, t),
        Op::Word => v == FieldValue::Word(u32_at(b, a, e)),
        Op::Flag => v == FieldValue::Flag(u32_at(b, a, e) != 0),
        Op::Event => v == FieldValue::Event(u32_at(b, a, e)),
        Op::Tags => v matches FieldValue::Tags(t) && tag_list_is(t@, b, pool, u32_at(b, a, e) as int, e),
        Op::TagList => v matches FieldValue::Tags(t) && if u32_at(b, a, e) == u32::MAX {
            t@.len() == 0
        } else {
            tag_list_is(t@, b, pool, u32_at(b, a, e) as int, e)
        },
        Op::BoneGroup => v matches FieldValue::BoneGroup(i) && named_group(b, pool, a, e, ctx) == Some(i as int),
        Op::Skip => false,
    }
}

/// Whether all fields of `steps`, the first at `q`, can be read.
pub open spec fn steps_ok(b: Seq<u8>, pool: Seq<u8>, q: int, e: Endian, steps: Seq<Step>, ctx: AsbContext) -> bool {
    forall|i: int| 0 <= i < steps.len() ==> op_ok(b, pool, #[trigger] step_pos(q, steps, i), e, steps[i].op, ctx)
}

/// The fields among the first `n` of `steps` that appear in the body.
pub open spec fn emitted(b: Seq<u8>, pool: Seq<u8>, q: int, e: Endian, steps: Seq<Step>, ctx: AsbContext, n: int) -> Seq<int>
    decreases n,
{
    if n <= 0 {
        Seq::empty()
    } else {
        let r = emitted(b, pool, q, e, steps, ctx, n - 1);
        if op_emits(b, pool, step_pos(q, steps, n - 1), e, steps[n - 1].op, ctx) {
            r.push(n - 1)
        } else {
            r
        }
    }
}

/// Whether `fields` are the fields that the first `n` of `steps` give, in order, each
/// under its key.
pub open spec fn fields_are(fields: Seq<(String, FieldValue)>, b: Seq<u8>, pool: Seq<u8>, q: int, e: Endian, steps: Seq<Step>, ctx: AsbContext, n: int) -> bool {
    let idx = emitted(b, pool, q, e, steps, ctx, n);
    &&& fields.len() == idx.len()
    &&& forall|m: int|
        0 <= m < fields.len() ==> (#[trigger] fields[m]).0@ == steps[idx[m]].key@ && op_value(
            fields[m].1,
            b,
            pool,
            step_pos(q, steps, idx[m]),
            e,
            steps[idx[m]].op,
            ctx,
        )
}

/// The index of the first bone group named `s`.
fn find_group(names: &Vec<String>, s: &str) -> (r: Option<usize>)
    ensures
        r matches Some(i) ==> first_named(names@.map_values(|x: String| x@), s@) == Some(i as int),
        r is None ==> first_named(names@.map_values(|x: String| x@), s@) is None,
{
    let ghost v = names@.map_values(|x: String| x@);
    let mut i: usize = 0;
    while i < names.len()
        invariant
            i <= names@.len(),
            v == names@.map_values(|x: String| x@),
            first_named(v.take(i as int), s@) is None,
        decreases names@.len() - i,
    {
        assert(v.take(i + 1).drop_last() =~= v.take(i as int));
        if str_eq(names[i].as_str(), s) {
            proof {
                lemma_first_named_prefix(v, s@, i as int);
            }
            return Some(i);
        }
        i = i + 1;
    }
    assert(v.take(i as int) =~= v);
    None
}

proof fn lemma_first_named_prefix(v: Seq<Seq<char>>, s: Seq<char>, i: int)
    requires
        0 <= i < v.len(),
        first_named(v.take(i), s) is None,
        v[i] == s,
    ensures
        first_named(v, s) == Some(i),
    decreases v.len(),
{
    if i < v.len() - 1 {
        assert(v.drop_last().take(i) =~= v.take(i));
        lemma_first_named_prefix(v.drop_last(), s, i);
    } else {
        assert(v.drop_last() =~= v.take(i));
    }
}

/// Reads one field stored as `op` at the cursor; `None` when the field does not appear.
/// Fails with `InvalidData` for an event index past the event table, and as the
/// reads do otherwise.
fn read_field(r: &mut BinaryReader<'_>, pool: &BinaryReader<'_>, op: Op, ctx: &AsbContext) -> (res: Result<Option<FieldValue>, Error>)
    requires
        old(r).wf(),
    ensures
        final(r).wf(),
        final(r).bytes() == old(r).bytes(),
        final(r).order() == old(r).order(),
        res is Ok <==> op_ok(old(r).bytes(), pool.bytes(), old(r).pos(), old(r).order(), op, *ctx),
        res matches Ok(x) ==> {
            &&& (x is Some <==> op_emits(old(r).bytes(), pool.bytes(), old(r).pos(), old(r).order(), op, *ctx))
            &&& (x matches Some(v) ==> op_value(v, old(r).bytes(), pool.bytes(), old(r).pos(), old(r).order(), op, *ctx))
            &&& final(r).pos() == old(r).pos() + op_size(op)
        },
        res matches Err(e) ==> e.kind == ErrorKind::UnexpectedEof || e.kind == ErrorKind::InvalidData,
{
    let ghost b = r.bytes();
    let ghost a = r.pos();
    let ghost e = r.order();
    match op {
        Op::Param(t) => {
            let x = read_parameter(r, pool, t)?;
            Ok(Some(FieldValue::Param(x)))
        },
        Op::Word => {
            let v = r.read_u32()?;
            Ok(Some(FieldValue::Word(v)))
        },
        Op::Flag => {
            let v = r.read_u32()?;
            Ok(Some(FieldValue::Flag(v != 0)))
        },
        Op::Event => {
            let v = r.read_u32()?;
            if v as usize >= ctx.event_count {
                return Err(invalid("ASB event index exceeds table"));
            }
            Ok(Some(FieldValue::Event(v)))
        },
        Op::Tags => {
            let t = r.read_u32()?;
            if t != 0 {
                let tags = read_tags(r, pool, t)?;
                Ok(Some(FieldValue::Tags(tags)))
            } else {
                Ok(None)
            }
        },
        Op::TagList => {
            let t = r.read_u32()?;
            if t != u32::MAX {
                let tags = read_tags(r, pool, t)?;
                Ok(Some(FieldValue::Tags(tags)))
            } else {
                Ok(Some(FieldValue::Tags(Vec::new())))
            }
        },
        Op::BoneGroup => {
            let x = read_parameter(r, pool, ParameterType::String)?;
            match x {
                AsbParameter::Value(ParamValue::String(name)) => {
                    match find_group(&ctx.bone_group_names, name.as_str()) {
                        Some(i) => Ok(Some(FieldValue::BoneGroup(i))),
                        None => Ok(None),
                    }
                },
                _ => Ok(None),
            }
        },
        Op::Skip => {
            let _ = r.skip(8)?;
            Ok(None)
        },
    }
}

/// Reads the fields of `steps` at the cursor, one after another, keeping those that
/// appear.
#[verifier::rlimit(40)]
fn read_fields(r: &mut BinaryReader<'_>, pool: &BinaryReader<'_>, steps: &Vec<Step>, ctx: &AsbContext) -> (res: Result<Vec<(String, FieldValue)>, Error>)
    requires
        old(r).wf(),
    ensures
        final(r).wf(),
        final(r).bytes() == old(r).bytes(),
        final(r).order() == old(r).order(),
        res is Ok <==> steps_ok(old(r).bytes(), pool.bytes(), old(r).pos(), old(r).order(), steps@, *ctx),
        res matches Ok(f) ==> fields_are(f@, old(r).bytes(), pool.bytes(), old(r).pos(), old(r).order(), steps@, *ctx, steps@.len() as int)
            && final(r).pos() == step_pos(old(r).pos(), steps@, steps@.len() as int),
        res matches Err(e) ==> e.kind == ErrorKind::UnexpectedEof || e.kind == ErrorKind::InvalidData,
{
    let ghost b = r.bytes();
    let ghost q = r.pos();
    let ghost e = r.order();
    let ghost pb = pool.bytes();
    let mut fields: Vec<(String, FieldValue)> = Vec::new();
    let mut i: usize = 0;
    while i < steps.len()
        invariant
            r.wf(),
            r.bytes() == b,
            r.order() == e,
            b == old(r).bytes(),
            e == old(r).order(),
            q == old(r).pos(),
            pb == pool.bytes(),
            i <= steps@.len(),
            r.pos() == step_pos(q, steps@, i as int),
            forall|j: int| 0 <= j < i ==> op_ok(b, pb, #[trigger] step_pos(q, steps@, j), e, steps@[j].op, *ctx),
            fields_are(fields@, b, pb, q, e, steps@, *ctx, i as int),
        decreases steps@.len() - i,
    {
        let step = steps[i];
        let x = match read_field(r, pool, step.op, ctx) {
            Ok(x) => x,
            Err(err) => {
                return Err(err);
            },
        };
        let ghost before = fields@;
        match x {
            Some(v) => {
                fields.push((step.key.to_string(), v));
                proof {
                    let idx = emitted(b, pb, q, e, steps@, *ctx, i + 1);
                    assert(idx == emitted(b, pb, q, e, steps@, *ctx, i as int).push(i as int));
                    assert forall|m: int| 0 <= m < fields@.len() implies (#[trigger] fields@[m]).0@ == steps@[idx[m]].key@
                        && op_value(fields@[m].1, b, pb, step_pos(q, steps@, idx[m]), e, steps@[idx[m]].op, *ctx) by {
                        if m < before.len() {
                            assert(fields@[m] == before[m]);
                        }
                    }
                }
            },
            None => {
                assert(emitted(b, pb, q, e, steps@, *ctx, i + 1) == emitted(b, pb, q, e, steps@, *ctx, i as int));
            },
        }
        i = i + 1;
    }
    Ok(fields)
}

/// How the children of a node are stored at their offsets: none but their node index
/// (`Finish`), or a record whose fields `child_steps` gives.
#[derive(Clone, Copy, Debug, PartialEq, Eq, Structural)]
pub enum ChildLayout {
    Finish,
    Range1D,
    Weighted,
    Selector(ParameterType),
    RangeSelector,
    BoolSelector,
    TagSelector,
}

/// The fields of the body of a node of kind `kind` in a file of version `version`,
/// in the order they are stored; some only from version 0x417 on.
pub open spec fn head_layout(kind: NodeType, version: u32) -> Seq<Step> {
    match kind {
        NodeType::SkeletalAnimation => seq![Step { key: "Animation", op: Op::Param(ParameterType::String) }, Step { key: "Unknown 1", op: Op::Word }, Step { key: "Unknown 2", op: Op::Word }, Step { key: "Unknown 3", op: Op::Param(ParameterType::Bool) }, Step { key: "Unknown 4", op: Op::Param(ParameterType::Float) }],
        NodeType::Sequential => seq![Step { key: "Unknown 1", op: Op::Param(ParameterType::Bool) }, Step { key: "Unknown 2", op: Op::Param(ParameterType::Int) }, Step { key: "Unknown 3", op: Op::Param(ParameterType::Int) }],
        NodeType::Simultaneous => seq![Step { key: "Unknown", op: Op::Word }],
        NodeType::Event => seq![Step { key: "Event", op: Op::Event }],
        NodeType::MaterialAnimation => if version == 0x417 { seq![Step { key: "Unknown 1", op: Op::Word }, Step { key: "Animation", op: Op::Param(ParameterType::String) }, Step { key: "Unknown 2", op: Op::Param(ParameterType::Bool) }] } else { seq![Step { key: "Animation", op: Op::Param(ParameterType::String) }, Step { key: "Unknown 2", op: Op::Param(ParameterType::Bool) }] },
        NodeType::DummyAnimation => seq![Step { key: "Frame", op: Op::Param(ParameterType::Float) }, Step { key: "Unknown", op: Op::Param(ParameterType::Bool) }],
        NodeType::OneDimensionalBlender => seq![Step { key: "Parameter", op: Op::Param(ParameterType::Float) }, Step { key: "Unknown", op: Op::Word }],
        NodeType::RandomSelector => seq![Step { key: "Unknown 1", op: Op::Word }, Step { key: "Unknown 2", op: Op::Param(ParameterType::Bool) }, Step { key: "Unknown 3", op: Op::Param(ParameterType::Int) }, Step { key: "Unknown 4", op: Op::Flag }],
        NodeType::FrameController => if version == 0x417 { seq![Step { key: "Animation Rate", op: Op::Param(ParameterType::Float) }, Step { key: "Start Frame", op: Op::Param(ParameterType::Float) }, Step { key: "End Frame", op: Op::Param(ParameterType::Float) }, Step { key: "Unknown Flag", op: Op::Word }, Step { key: "Loop Cancel Flag", op: Op::Param(ParameterType::Bool) }, Step { key: "Unknown 2", op: Op::Param(ParameterType::Bool) }, Step { key: "Unknown 3", op: Op::Param(ParameterType::Int) }, Step { key: "Unknown 4", op: Op::Param(ParameterType::Int) }, Step { key: "Unknown 5", op: Op::Param(ParameterType::Bool) }, Step { key: "Unknown 6", op: Op::Param(ParameterType::Float) }, Step { key: "Unknown 7", op: Op::Param(ParameterType::Float) }, Step { key: "Unknown 8", op: Op::Param(ParameterType::Float) }, Step { key: "Unknown 9", op: Op::Flag }, Step { key: "Unknown 10", op: Op::Param(ParameterType::Float) }, Step { key: "Unknown 11", op: Op::Param(ParameterType::Bool) }, Step { key: "Unknown 12", op: Op::Word }, Step { key: "Unknown 13", op: Op::Word }] } else { seq![Step { key: "Animation Rate", op: Op::Param(ParameterType::Float) }, Step { key: "Start Frame", op: Op::Param(ParameterType::Float) }, Step { key: "End Frame", op: Op::Param(ParameterType::Float) }, Step { key: "Unknown Flag", op: Op::Word }, Step { key: "Loop Cancel Flag", op: Op::Param(ParameterType::Bool) }, Step { key: "Unknown 2", op: Op::Param(ParameterType::Bool) }, Step { key: "Unknown 3", op: Op::Param(ParameterType::Int) }, Step { key: "Unknown 4", op: Op::Param(ParameterType::Int) }, Step { key: "Unknown 5", op: Op::Param(ParameterType::Bool) }, Step { key: "Unknown 6", op: Op::Param(ParameterType::Float) }, Step { key: "Unknown 7", op: Op::Param(ParameterType::Float) }, Step { key: "Unknown 8", op: Op::Param(ParameterType::Float) }, Step { key: "Unknown 9", op: Op::Flag }, Step { key: "Unknown 10", op: Op::Param(ParameterType::Float) }, Step { key: "Unknown 12", op: Op::Word }, Step { key: "Unknown 13", op: Op::Word }] },
        NodeType::BoneAnimation => seq![Step { key: "Animation", op: Op::Param(ParameterType::String) }, Step { key: "Unknown 1", op: Op::Param(ParameterType::Bool) }, Step { key: "Unknown 2", op: Op::Word }, Step { key: "Unknown 3", op: Op::Word }, Step { key: "Unknown 4", op: Op::Param(ParameterType::Float) }],
        NodeType::Alert => seq![Step { key: "Message", op: Op::Param(ParameterType::String) }],
        NodeType::ShapeAnimation => seq![Step { key: "Animation", op: Op::Param(ParameterType::String) }],
        NodeType::StringSelector => seq![Step { key: "Parameter", op: Op::Param(ParameterType::String) }, Step { key: "Unknown 1", op: Op::Param(ParameterType::Bool) }, Step { key: "Unknown 2", op: Op::Flag }],
        NodeType::FloatSelector => seq![Step { key: "Parameter", op: Op::Param(ParameterType::Float) }, Step { key: "Unknown 1", op: Op::Param(ParameterType::Bool) }, Step { key: "Unknown 2", op: Op::Flag }],
        NodeType::IntSelector => seq![Step { key: "Parameter", op: Op::Param(ParameterType::Int) }, Step { key: "Unknown 1", op: Op::Param(ParameterType::Bool) }, Step { key: "Unknown 2", op: Op::Flag }],
        NodeType::BoolSelector => seq![Step { key: "Parameter", op: Op::Param(ParameterType::Bool) }, Step { key: "Unknown 1", op: Op::Param(ParameterType::Bool) }, Step { key: "Unknown 2", op: Op::Flag }],
        NodeType::PreviousTagSelector => seq![Step { key: "Unknown", op: Op::Word }],
        NodeType::BonePositionSelector => seq![Step { key: "Bone 1", op: Op::Param(ParameterType::String) }, Step { key: "Bone 2", op: Op::Param(ParameterType::String) }, Step { key: "Unknown 1", op: Op::Word }, Step { key: "Unknown 2", op: Op::Word }, Step { key: "Unknown 3", op: Op::Param(ParameterType::Bool) }],
        NodeType::InitialFrame => if version == 0x417 { seq![Step { key: "Flag", op: Op::Word }, Step { key: "Tags", op: Op::Tags }, Step { key: "Unknown 1", op: Op::Param(ParameterType::Bool) }, Step { key: "Bone 1", op: Op::Param(ParameterType::String) }, Step { key: "Bone 2", op: Op::Param(ParameterType::String) }, Step { key: "Unknown 2", op: Op::Word }, Step { key: "Unknown 3", op: Op::Param(ParameterType::Bool) }, Step { key: "Unknown 4", op: Op::Param(ParameterType::Bool) }] } else { seq![Step { key: "Flag", op: Op::Word }, Step { key: "Tags", op: Op::Tags }, Step { key: "Bone 1", op: Op::Param(ParameterType::String) }, Step { key: "Bone 2", op: Op::Param(ParameterType::String) }, Step { key: "Unknown 2", op: Op::Word }, Step { key: "Unknown 3", op: Op::Param(ParameterType::Bool) }, Step { key: "Unknown 4", op: Op::Param(ParameterType::Bool) }] },
        NodeType::BoneBlender => if version == 0x417 { seq![Step { key: "Bone Group", op: Op::BoneGroup }, Step { key: "Unknown 1", op: Op::Word }, Step { key: "Unknown 2", op: Op::Param(ParameterType::Float) }, Step { key: "Unknown 3", op: Op::Word }, Step { key: "Unknown 4", op: Op::Word }] } else { seq![Step { key: "Bone Group", op: Op::BoneGroup }, Step { key: "Unknown 1", op: Op::Word }, Step { key: "Unknown 2", op: Op::Param(ParameterType::Float) }, Step { key: "Unknown 3", op: Op::Word }] },
        NodeType::State => Seq::empty(),
        NodeType::SubtractAnimation => Seq::empty(),
        NodeType::Unknown7 => Seq::empty(),
        NodeType::Unknown2 => Seq::empty(),
        NodeType::Unknown4 => Seq::empty(),
    }
}

/// The fields of the body of a node of kind `kind`, as `head_layout` gives them.
pub fn head_steps(kind: NodeType, version: u32) -> (v: Vec<Step>)
    ensures
        v@ == head_layout(kind, version),
{
    match kind {
        NodeType::SkeletalAnimation => vec![Step { key: "Animation", op: Op::Param(ParameterType::String) }, Step { key: "Unknown 1", op: Op::Word }, Step { key: "Unknown 2", op: Op::Word }, Step { key: "Unknown 3", op: Op::Param(ParameterType::Bool) }, Step { key: "Unknown 4", op: Op::Param(ParameterType::Float) }],
        NodeType::Sequential => vec![Step { key: "Unknown 1", op: Op::Param(ParameterType::Bool) }, Step { key: "Unknown 2", op: Op::Param(ParameterType::Int) }, Step { key: "Unknown 3", op: Op::Param(ParameterType::Int) }],
        NodeType::Simultaneous => vec![Step { key: "Unknown", op: Op::Word }],
        NodeType::Event => vec![Step { key: "Event", op: Op::Event }],
        NodeType::MaterialAnimation => if version == 0x417 { vec![Step { key: "Unknown 1", op: Op::Word }, Step { key: "Animation", op: Op::Param(ParameterType::String) }, Step { key: "Unknown 2", op: Op::Param(ParameterType::Bool) }] } else { vec![Step { key: "Animation", op: Op::Param(ParameterType::String) }, Step { key: "Unknown 2", op: Op::Param(ParameterType::Bool) }] },
        NodeType::DummyAnimation => vec![Step { key: "Frame", op: Op::Param(ParameterType::Float) }, Step { key: "Unknown", op: Op::Param(ParameterType::Bool) }],
        NodeType::OneDimensionalBlender => vec![Step { key: "Parameter", op: Op::Param(ParameterType::Float) }, Step { key: "Unknown", op: Op::Word }],
        NodeType::RandomSelector => vec![Step { key: "Unknown 1", op: Op::Word }, Step { key: "Unknown 2", op: Op::Param(ParameterType::Bool) }, Step { key: "Unknown 3", op: Op::Param(ParameterType::Int) }, Step { key: "Unknown 4", op: Op::Flag }],
        NodeType::FrameController => if version == 0x417 { vec![Step { key: "Animation Rate", op: Op::Param(ParameterType::Float) }, Step { key: "Start Frame", op: Op::Param(ParameterType::Float) }, Step { key: "End Frame", op: Op::Param(ParameterType::Float) }, Step { key: "Unknown Flag", op: Op::Word }, Step { key: "Loop Cancel Flag", op: Op::Param(ParameterType::Bool) }, Step { key: "Unknown 2", op: Op::Param(ParameterType::Bool) }, Step { key: "Unknown 3", op: Op::Param(ParameterType::Int) }, Step { key: "Unknown 4", op: Op::Param(ParameterType::Int) }, Step { key: "Unknown 5", op: Op::Param(ParameterType::Bool) }, Step { key: "Unknown 6", op: Op::Param(ParameterType::Float) }, Step { key: "Unknown 7", op: Op::Param(ParameterType::Float) }, Step { key: "Unknown 8", op: Op::Param(ParameterType::Float) }, Step { key: "Unknown 9", op: Op::Flag }, Step { key: "Unknown 10", op: Op::Param(ParameterType::Float) }, Step { key: "Unknown 11", op: Op::Param(ParameterType::Bool) }, Step { key: "Unknown 12", op: Op::Word }, Step { key: "Unknown 13", op: Op::Word }] } else { vec![Step { key: "Animation Rate", op: Op::Param(ParameterType::Float) }, Step { key: "Start Frame", op: Op::Param(ParameterType::Float) }, Step { key: "End Frame", op: Op::Param(ParameterType::Float) }, Step { key: "Unknown Flag", op: Op::Word }, Step { key: "Loop Cancel Flag", op: Op::Param(ParameterType::Bool) }, Step { key: "Unknown 2", op: Op::Param(ParameterType::Bool) }, Step { key: "Unknown 3", op: Op::Param(ParameterType::Int) }, Step { key: "Unknown 4", op: Op::Param(ParameterType::Int) }, Step { key: "Unknown 5", op: Op::Param(ParameterType::Bool) }, Step { key: "Unknown 6", op: Op::Param(ParameterType::Float) }, Step { key: "Unknown 7", op: Op::Param(ParameterType::Float) }, Step { key: "Unknown 8", op: Op::Param(ParameterType::Float) }, Step { key: "Unknown 9", op: Op::Flag }, Step { key: "Unknown 10", op: Op::Param(ParameterType::Float) }, Step { key: "Unknown 12", op: Op::Word }, Step { key: "Unknown 13", op: Op::Word }] },
        NodeType::BoneAnimation => vec![Step { key: "Animation", op: Op::Param(ParameterType::String) }, Step { key: "Unknown 1", op: Op::Param(ParameterType::Bool) }, Step { key: "Unknown 2", op: Op::Word }, Step { key: "Unknown 3", op: Op::Word }, Step { key: "Unknown 4", op: Op::Param(ParameterType::Float) }],
        NodeType::Alert => vec![Step { key: "Message", op: Op::Param(ParameterType::String) }],
        NodeType::ShapeAnimation => vec![Step { key: "Animation", op: Op::Param(ParameterType::String) }],
        NodeType::StringSelector => vec![Step { key: "Parameter", op: Op::Param(ParameterType::String) }, Step { key: "Unknown 1", op: Op::Param(ParameterType::Bool) }, Step { key: "Unknown 2", op: Op::Flag }],
        NodeType::FloatSelector => vec![Step { key: "Parameter", op: Op::Param(ParameterType::Float) }, Step { key: "Unknown 1", op: Op::Param(ParameterType::Bool) }, Step { key: "Unknown 2", op: Op::Flag }],
        NodeType::IntSelector => vec![Step { key: "Parameter", op: Op::Param(ParameterType::Int) }, Step { key: "Unknown 1", op: Op::Param(ParameterType::Bool) }, Step { key: "Unknown 2", op: Op::Flag }],
        NodeType::BoolSelector => vec![Step { key: "Parameter", op: Op::Param(ParameterType::Bool) }, Step { key: "Unknown 1", op: Op::Param(ParameterType::Bool) }, Step { key: "Unknown 2", op: Op::Flag }],
        NodeType::PreviousTagSelector => vec![Step { key: "Unknown", op: Op::Word }],
        NodeType::BonePositionSelector => vec![Step { key: "Bone 1", op: Op::Param(ParameterType::String) }, Step { key: "Bone 2", op: Op::Param(ParameterType::String) }, Step { key: "Unknown 1", op: Op::Word }, Step { key: "Unknown 2", op: Op::Word }, Step { key: "Unknown 3", op: Op::Param(ParameterType::Bool) }],
        NodeType::InitialFrame => if version == 0x417 { vec![Step { key: "Flag", op: Op::Word }, Step { key: "Tags", op: Op::Tags }, Step { key: "Unknown 1", op: Op::Param(ParameterType::Bool) }, Step { key: "Bone 1", op: Op::Param(ParameterType::String) }, Step { key: "Bone 2", op: Op::Param(ParameterType::String) }, Step { key: "Unknown 2", op: Op::Word }, Step { key: "Unknown 3", op: Op::Param(ParameterType::Bool) }, Step { key: "Unknown 4", op: Op::Param(ParameterType::Bool) }] } else { vec![Step { key: "Flag", op: Op::Word }, Step { key: "Tags", op: Op::Tags }, Step { key: "Bone 1", op: Op::Param(ParameterType::String) }, Step { key: "Bone 2", op: Op::Param(ParameterType::String) }, Step { key: "Unknown 2", op: Op::Word }, Step { key: "Unknown 3", op: Op::Param(ParameterType::Bool) }, Step { key: "Unknown 4", op: Op::Param(ParameterType::Bool) }] },
        NodeType::BoneBlender => if version == 0x417 { vec![Step { key: "Bone Group", op: Op::BoneGroup }, Step { key: "Unknown 1", op: Op::Word }, Step { key: "Unknown 2", op: Op::Param(ParameterType::Float) }, Step { key: "Unknown 3", op: Op::Word }, Step { key: "Unknown 4", op: Op::Word }] } else { vec![Step { key: "Bone Group", op: Op::BoneGroup }, Step { key: "Unknown 1", op: Op::Word }, Step { key: "Unknown 2", op: Op::Param(ParameterType::Float) }, Step { key: "Unknown 3", op: Op::Word }] },
        NodeType::State => Vec::new(),
        NodeType::SubtractAnimation => Vec::new(),
        NodeType::Unknown7 => Vec::new(),
        NodeType::Unknown2 => Vec::new(),
        NodeType::Unknown4 => Vec::new(),
    }
}

/// How the children of a node of kind `kind` are stored, if its body is read.
pub open spec fn child_layout(kind: NodeType) -> Option<ChildLayout> {
    match kind {
        NodeType::SkeletalAnimation => Some(ChildLayout::Finish),
        NodeType::Sequential => Some(ChildLayout::Finish),
        NodeType::Simultaneous => Some(ChildLayout::Finish),
        NodeType::Event => Some(ChildLayout::Finish),
        NodeType::MaterialAnimation => Some(ChildLayout::Finish),
        NodeType::DummyAnimation => Some(ChildLayout::Finish),
        NodeType::OneDimensionalBlender => Some(ChildLayout::Range1D),
        NodeType::RandomSelector => Some(ChildLayout::Weighted),
        NodeType::FrameController => Some(ChildLayout::Finish),
        NodeType::BoneAnimation => Some(ChildLayout::Finish),
        NodeType::Alert => Some(ChildLayout::Finish),
        NodeType::ShapeAnimation => Some(ChildLayout::Finish),
        NodeType::StringSelector => Some(ChildLayout::Selector(ParameterType::String)),
        NodeType::FloatSelector => Some(ChildLayout::RangeSelector),
        NodeType::IntSelector => Some(ChildLayout::Selector(ParameterType::Int)),
        NodeType::BoolSelector => Some(ChildLayout::BoolSelector),
        NodeType::PreviousTagSelector => Some(ChildLayout::TagSelector),
        NodeType::BonePositionSelector => Some(ChildLayout::RangeSelector),
        NodeType::InitialFrame => Some(ChildLayout::Finish),
        NodeType::BoneBlender => Some(ChildLayout::Finish),
        NodeType::State => Some(ChildLayout::Finish),
        NodeType::SubtractAnimation => Some(ChildLayout::Finish),
        NodeType::Unknown7 => Some(ChildLayout::Finish),
        NodeType::Unknown2 => None,
        NodeType::Unknown4 => None,
    }
}

/// How the children of a node of kind `kind` are stored, as `child_layout` gives it.
pub fn children_of(kind: NodeType) -> (c: Option<ChildLayout>)
    ensures
        c == child_layout(kind),
{
    match kind {
        NodeType::SkeletalAnimation => Some(ChildLayout::Finish),
        NodeType::Sequential => Some(ChildLayout::Finish),
        NodeType::Simultaneous => Some(ChildLayout::Finish),
        NodeType::Event => Some(ChildLayout::Finish),
        NodeType::MaterialAnimation => Some(ChildLayout::Finish),
        NodeType::DummyAnimation => Some(ChildLayout::Finish),
        NodeType::OneDimensionalBlender => Some(ChildLayout::Range1D),
        NodeType::RandomSelector => Some(ChildLayout::Weighted),
        NodeType::FrameController => Some(ChildLayout::Finish),
        NodeType::BoneAnimation => Some(ChildLayout::Finish),
        NodeType::Alert => Some(ChildLayout::Finish),
        NodeType::ShapeAnimation => Some(ChildLayout::Finish),
        NodeType::StringSelector => Some(ChildLayout::Selector(ParameterType::String)),
        NodeType::FloatSelector => Some(ChildLayout::RangeSelector),
        NodeType::IntSelector => Some(ChildLayout::Selector(ParameterType::Int)),
        NodeType::BoolSelector => Some(ChildLayout::BoolSelector),
        NodeType::PreviousTagSelector => Some(ChildLayout::TagSelector),
        NodeType::BonePositionSelector => Some(ChildLayout::RangeSelector),
        NodeType::InitialFrame => Some(ChildLayout::Finish),
        NodeType::BoneBlender => Some(ChildLayout::Finish),
        NodeType::State => Some(ChildLayout::Finish),
        NodeType::SubtractAnimation => Some(ChildLayout::Finish),
        NodeType::Unknown7 => Some(ChildLayout::Finish),
        NodeType::Unknown2 => None,
        NodeType::Unknown4 => None,
    }
}

/// The fields of child `i` of `n` of a node whose children are stored as `layout`:
/// the last child of a selector holds the default condition, and the first child of a
/// bool selector the true branch.
pub open spec fn child_steps(layout: ChildLayout, i: int, n: int) -> Seq<Step> {
    match layout {
        ChildLayout::Finish => Seq::empty(),
        ChildLayout::Range1D => seq![
            Step { key: "Condition Min", op: Op::Param(ParameterType::Float) },
            Step { key: "Condition Max", op: Op::Param(ParameterType::Float) },
            Step { key: "Node Index", op: Op::Word },
        ],
        ChildLayout::Weighted => seq![
            Step { key: "Weight", op: Op::Param(ParameterType::Float) },
            Step { key: "Node Index", op: Op::Word },
        ],
        ChildLayout::Selector(t) => if i + 1 == n {
            seq![Step { key: "Default Condition", op: Op::Param(t) }, Step { key: "Node Index", op: Op::Word }]
        } else {
            seq![Step { key: "Condition", op: Op::Param(t) }, Step { key: "Node Index", op: Op::Word }]
        },
        ChildLayout::RangeSelector => if i + 1 == n {
            seq![
                Step { key: "Default Condition", op: Op::Param(ParameterType::String) },
                Step { key: "", op: Op::Skip },
                Step { key: "Node Index", op: Op::Word },
            ]
        } else {
            seq![
                Step { key: "Condition Min", op: Op::Param(ParameterType::Float) },
                Step { key: "Condition Max", op: Op::Param(ParameterType::Float) },
                Step { key: "Node Index", op: Op::Word },
            ]
        },
        ChildLayout::BoolSelector => if i == 0 {
            seq![Step { key: "Condition True", op: Op::Word }]
        } else {
            seq![Step { key: "Condition False", op: Op::Word }]
        },
        ChildLayout::TagSelector => seq![Step { key: "Tags", op: Op::TagList }, Step { key: "Node Index", op: Op::Word }],
    }
}

/// The fields of a child record, as `child_steps` gives them.
pub fn child_record_steps(layout: ChildLayout, i: usize, n: usize) -> (v: Vec<Step>)
    ensures
        v@ == child_steps(layout, i as int, n as int),
{
    match layout {
        ChildLayout::Finish => Vec::new(),
        ChildLayout::Range1D => vec![
            Step { key: "Condition Min", op: Op::Param(ParameterType::Float) },
            Step { key: "Condition Max", op: Op::Param(ParameterType::Float) },
            Step { key: "Node Index", op: Op::Word },
        ],
        ChildLayout::Weighted => vec![
            Step { key: "Weight", op: Op::Param(ParameterType::Float) },
            Step { key: "Node Index", op: Op::Word },
        ],
        ChildLayout::Selector(t) => if i < n && i == n - 1 {
            vec![Step { key: "Default Condition", op: Op::Param(t) }, Step { key: "Node Index", op: Op::Word }]
        } else {
            vec![Step { key: "Condition", op: Op::Param(t) }, Step { key: "Node Index", op: Op::Word }]
        },
        ChildLayout::RangeSelector => if i < n && i == n - 1 {
            vec![
                Step { key: "Default Condition", op: Op::Param(ParameterType::String) },
                Step { key: "", op: Op::Skip },
                Step { key: "Node Index", op: Op::Word },
            ]
        } else {
            vec![
                Step { key: "Condition Min", op: Op::Param(ParameterType::Float) },
                Step { key: "Condition Max", op: Op::Param(ParameterType::Float) },
                Step { key: "Node Index", op: Op::Word },
            ]
        },
        ChildLayout::BoolSelector => if i == 0 {
            vec![Step { key: "Condition True", op: Op::Word }]
        } else {
            vec![Step { key: "Condition False", op: Op::Word }]
        },
        ChildLayout::TagSelector => vec![Step { key: "Tags", op: Op::TagList }, Step { key: "Node Index", op: Op::Word }],
    }
}

/// The children of a node body: the node index at each child offset, or a record of
/// fields at each.
#[derive(Clone, Debug)]
pub enum Children {
    Nodes(Vec<u32>),
    Records(Vec<Vec<(String, FieldValue)>>),
}

/// The body of an ASB node: its fields in order, its children, and its connections.
#[derive(Clone, Debug)]
pub struct NodeBody {
    pub fields: Vec<(String, FieldValue)>,
    pub children: Children,
    pub connections: NodeConnections,
}

/// Whether the children of the connection block at `c`, stored as `layout`, can be read.
pub open spec fn children_ok(b: Seq<u8>, pool: Seq<u8>, c: int, e: Endian, layout: ChildLayout, ctx: AsbContext) -> bool {
    let n = conn_count(b, c, 2);
    if layout == ChildLayout::Finish {
        forall|j: int| 0 <= j < n ==> #[trigger] conn_offset(b, c, e, 2, j) + 4 <= b.len()
    } else {
        forall|j: int|
            0 <= j < n ==> #[trigger] conn_offset(b, c, e, 2, j) <= b.len() && steps_ok(
                b,
                pool,
                conn_offset(b, c, e, 2, j),
                e,
                child_steps(layout, j, n),
                ctx,
            )
    }
}

/// Whether `ch` are the children of the connection block at `c`, stored as `layout`.
pub open spec fn children_are(ch: Children, b: Seq<u8>, pool: Seq<u8>, c: int, e: Endian, layout: ChildLayout, ctx: AsbContext) -> bool {
    let n = conn_count(b, c, 2);
    if layout == ChildLayout::Finish {
        ch matches Children::Nodes(v) && v@.len() == n && forall|j: int|
            0 <= j < n ==> #[trigger] v@[j] == u32_at(b, conn_offset(b, c, e, 2, j), e)
    } else {
        ch matches Children::Records(v) && v@.len() == n && forall|j: int|
            0 <= j < n ==> fields_are(
                (#[trigger] v@[j])@,
                b,
                pool,
                conn_offset(b, c, e, 2, j),
                e,
                child_steps(layout, j, n),
                ctx,
                child_steps(layout, j, n).len() as int,
            )
    }
}

/// Reads the child records at `offsets`, stored as `layout`, a seek to each.
fn read_records(r: &mut BinaryReader<'_>, pool: &BinaryReader<'_>, offsets: &Vec<u32>, layout: ChildLayout, ctx: &AsbContext) -> (res: Result<Vec<Vec<(String, FieldValue)>>, Error>)
    requires
        old(r).wf(),
    ensures
        final(r).wf(),
        final(r).bytes() == old(r).bytes(),
        final(r).order() == old(r).order(),
        res is Ok <==> forall|j: int|
            0 <= j < offsets@.len() ==> #[trigger] offsets@[j] <= old(r).bytes().len() && steps_ok(
                old(r).bytes(),
                pool.bytes(),
                offsets@[j] as int,
                old(r).order(),
                child_steps(layout, j, offsets@.len() as int),
                *ctx,
            ),
        res matches Ok(v) ==> v@.len() == offsets@.len() && forall|j: int|
            0 <= j < offsets@.len() ==> fields_are(
                (#[trigger] v@[j])@,
                old(r).bytes(),
                pool.bytes(),
                offsets@[j] as int,
                old(r).order(),
                child_steps(layout, j, offsets@.len() as int),
                *ctx,
                child_steps(layout, j, offsets@.len() as int).len() as int,
            ),
        res matches Err(e) ==> e.kind == ErrorKind::UnexpectedEof || e.kind == ErrorKind::InvalidData,
{
    let ghost b = r.bytes();
    let ghost e = r.order();
    let ghost pb = pool.bytes();
    let n = offsets.len();
    let mut out: Vec<Vec<(String, FieldValue)>> = Vec::new();
    let mut j: usize = 0;
    while j < n
        invariant
            r.wf(),
            r.bytes() == b,
            r.order() == e,
            b == old(r).bytes(),
            e == old(r).order(),
            pb == pool.bytes(),
            n == offsets@.len(),
            j <= n,
            out@.len() == j,
            forall|i: int|
                0 <= i < j ==> #[trigger] offsets@[i] <= b.len() && steps_ok(
                    b,
                    pb,
                    offsets@[i] as int,
                    e,
                    child_steps(layout, i, n as int),
                    *ctx,
                ),
            forall|i: int|
                0 <= i < j ==> fields_are(
                    (#[trigger] out@[i])@,
                    b,
                    pb,
                    offsets@[i] as int,
                    e,
                    child_steps(layout, i, n as int),
                    *ctx,
                    child_steps(layout, i, n as int).len() as int,
                ),
        decreases n - j,
    {
        let at = offsets[j] as usize;
        if at > r.len() {
            return Err(crate::error::eof("ASB child record is past the end"));
        }
        let _ = r.seek(at);
        let steps = child_record_steps(layout, j, n);
        let fields = read_fields(r, pool, &steps, ctx)?;
        out.push(fields);
        j = j + 1;
    }
    Ok(out)
}

/// Whether the body of a node of kind `kind` at `q` can be read: its fields, the
/// connection block after them, and the children that block points at.
pub open spec fn node_body_ok(b: Seq<u8>, pool: Seq<u8>, q: int, e: Endian, kind: NodeType, ctx: AsbContext) -> bool {
    let head = head_layout(kind, ctx.version);
    let c = step_pos(q, head, head.len() as int);
    match child_layout(kind) {
        None => true,
        Some(layout) => {
            &&& steps_ok(b, pool, q, e, head, ctx)
            &&& connections_ok(b, c, e, ctx.version, ctx.x2c_count as int)
            &&& children_ok(b, pool, c, e, layout, ctx)
        },
    }
}

/// Whether `body` is the body of a node of kind `kind` at `q`: none for the kinds
/// whose body is not read, else its fields, its children and its connections.
pub open spec fn node_body_is(body: Option<NodeBody>, b: Seq<u8>, pool: Seq<u8>, q: int, e: Endian, kind: NodeType, ctx: AsbContext) -> bool {
    let head = head_layout(kind, ctx.version);
    let c = step_pos(q, head, head.len() as int);
    match child_layout(kind) {
        None => body is None,
        Some(layout) => body matches Some(x) && {
            &&& fields_are(x.fields@, b, pool, q, e, head, ctx, head.len() as int)
            &&& connections_are(x.connections, b, c, e, ctx.version)
            &&& children_are(x.children, b, pool, c, e, layout, ctx)
        },
    }
}

/// Reads the body of a node of kind `kind` at the cursor, with strings from `pool`:
/// the fields `head_layout` lists, the connection block after them, then the children
/// at the child offsets, as `child_layout` says. The bodies of `Unknown2` and `Unknown4`
/// nodes are not read. Fails with `InvalidData` for an event, 0x2C or other index past
/// its table, and as the reads do otherwise.
#[verifier::rlimit(60)]
pub fn read_node_body(r: &mut BinaryReader<'_>, pool: &BinaryReader<'_>, kind: NodeType, ctx: &AsbContext) -> (res: Result<Option<NodeBody>, Error>)
    requires
        old(r).wf(),
    ensures
        final(r).wf(),
        final(r).bytes() == old(r).bytes(),
        final(r).order() == old(r).order(),
        res is Ok <==> node_body_ok(old(r).bytes(), pool.bytes(), old(r).pos(), old(r).order(), kind, *ctx),
        res matches Ok(body) ==> node_body_is(body, old(r).bytes(), pool.bytes(), old(r).pos(), old(r).order(), kind, *ctx),
        res matches Err(e) ==> e.kind == ErrorKind::UnexpectedEof || e.kind == ErrorKind::InvalidData,
{
    let ghost b = r.bytes();
    let ghost q = r.pos();
    let ghost e = r.order();
    let ghost pb = pool.bytes();
    let layout = match children_of(kind) {
        Some(l) => l,
        None => return Ok(None),
    };
    let head = head_steps(kind, ctx.version);
    let fields = read_fields(r, pool, &head, ctx)?;
    let ghost c = r.pos();
    let connections = NodeConnections::read(r, ctx.version, ctx.x2c_count)?;
    let children = if layout == ChildLayout::Finish {
        match read_at(r, connections.child_offsets.as_slice()) {
            Ok(v) => Children::Nodes(v),
            Err(err) => {
                assert(!children_ok(b, pb, c, e, layout, *ctx)) by {
                    let j = choose|j: int|
                        0 <= j < connections.child_offsets@.len() && !(#[trigger] connections.child_offsets@[j] + 4 <= b.len());
                    assert(connections.child_offsets@[j] == conn_offset(b, c, e, 2, j));
                }
                return Err(err);
            },
        }
    } else {
        match read_records(r, pool, &connections.child_offsets, layout, ctx) {
            Ok(v) => {
                proof {
                    assert forall|j: int| 0 <= j < conn_count(b, c, 2) implies #[trigger] conn_offset(b, c, e, 2, j) <= b.len()
                        && steps_ok(b, pb, conn_offset(b, c, e, 2, j), e, child_steps(layout, j, conn_count(b, c, 2)), *ctx) by {
                        assert(connections.child_offsets@[j] == conn_offset(b, c, e, 2, j));
                    }
                    assert forall|j: int| 0 <= j < conn_count(b, c, 2) implies fields_are(
                        (#[trigger] v@[j])@,
                        b,
                        pb,
                        conn_offset(b, c, e, 2, j),
                        e,
                        child_steps(layout, j, conn_count(b, c, 2)),
                        *ctx,
                        child_steps(layout, j, conn_count(b, c, 2)).len() as int,
                    ) by {
                        assert(connections.child_offsets@[j] == conn_offset(b, c, e, 2, j));
                    }
                }
                Children::Records(v)
            },
            Err(err) => {
                assert(!children_ok(b, pb, c, e, layout, *ctx)) by {
                    let j = choose|j: int|
                        0 <= j < connections.child_offsets@.len() && !(#[trigger] connections.child_offsets@[j] <= b.len()
                            && steps_ok(b, pb, connections.child_offsets@[j] as int, e, child_steps(layout, j, connections.child_offsets@.len() as int), *ctx));
                    assert(connections.child_offsets@[j] == conn_offset(b, c, e, 2, j));
                }
                return Err(err);
            },
        }
    };
    proof {
        if layout == ChildLayout::Finish {
            assert forall|j: int| 0 <= j < conn_count(b, c, 2) implies #[trigger] conn_offset(b, c, e, 2, j) + 4 <= b.len() by {
                assert(connections.child_offsets@[j] == conn_offset(b, c, e, 2, j));
            }
        }
    }
    Ok(Some(NodeBody { fields, children, connections }))
}

} // verus!
