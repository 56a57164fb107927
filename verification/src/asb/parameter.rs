use vstd::prelude::*;
use crate::binary::{c_string_at, signed32, u32_at, BinaryReader, Endian};
use vstd::string::StrSliceExecFns;
use crate::error::{invalid, Error, ErrorKind};

verus! {

/// The declared type of an ASB node parameter.
#[derive(Clone, Copy, Debug, PartialEq, Eq, Structural)]
pub enum ParameterType {
    String,
    Int,
    Float,
    Bool,
    Vec3f,
}

/// The name of each parameter type.
pub open spec fn parameter_type_name(t: ParameterType) -> Seq<char> {
    match t {
        ParameterType::String => "string"@,
        ParameterType::Int => "int"@,
        ParameterType::Float => "float"@,
        ParameterType::Bool => "bool"@,
        ParameterType::Vec3f => "vec3f"@,
    }
}

impl ParameterType {
    /// The name of this parameter type.
    pub fn name(self) -> (s: &'static str)
        ensures
            s@ == parameter_type_name(self),
    {
        match self {
            ParameterType::String => "string",
            ParameterType::Int => "int",
            ParameterType::Float => "float",
            ParameterType::Bool => "bool",
            ParameterType::Vec3f => "vec3f",
        }
    }
}

/// The names the ASB format gives its parameter types: "string", "int", "float",
/// "bool" and "vec3f"; no two types share a name.
pub proof fn lemma_parameter_type_names(t1: ParameterType, t2: ParameterType)
    ensures
        parameter_type_name(ParameterType::String) == "string"@,
        parameter_type_name(ParameterType::Int) == "int"@,
        parameter_type_name(ParameterType::Float) == "float"@,
        parameter_type_name(ParameterType::Bool) == "bool"@,
        parameter_type_name(ParameterType::Vec3f) == "vec3f"@,
        parameter_type_name(t1) == parameter_type_name(t2) ==> t1 == t2,
{
    reveal_strlit("string");
    reveal_strlit("int");
    reveal_strlit("float");
    reveal_strlit("bool");
    reveal_strlit("vec3f");
    if parameter_type_name(t1) == parameter_type_name(t2) && t1 != t2 {
        let a = parameter_type_name(t1);
        let b = parameter_type_name(t2);
        assert(a.len() == b.len());
        assert(a[0] == b[0]);
    }
}

/// The `InvalidData` error for a parameter type name that is not known.
pub fn invalid_type(name: &str) -> (e: Error)
    ensures
        e.kind == ErrorKind::InvalidData,
{
    invalid("invalid ASB parameter type")
}

/// A parameter value as an ASB file stores it: a string, a signed integer, a float by
/// its bit pattern, a flag, or three floats by their bit patterns.
#[derive(Clone, Debug)]
pub enum ParamValue {
    String(String),
    Int(i32),
    Float(u32),
    Bool(bool),
    Vec3f(u32, u32, u32),
}

/// A node parameter: a value stored in place, or a reference with the value stored
/// after it as its default, kept where that value is not empty, zero or false. An
/// `Exb` reference names an expression; a `Blackboard` reference names a local
/// blackboard entry of the parameter's type; an `Indexed` reference names another
/// index. The last two keep the upper half of the flag word, which a file shows in
/// hexadecimal.
#[derive(Clone, Debug)]
pub enum AsbParameter {
    Value(ParamValue),
    Exb { index: u32, default: Option<ParamValue> },
    Blackboard { flags: u32, ty: ParameterType, index: u32, default: Option<ParamValue> },
    Indexed { flags: u32, index: u32, default: Option<ParamValue> },
}

/// The bytes a value of type `ty` takes.
pub open spec fn value_size(ty: ParameterType) -> int {
    if ty == ParameterType::Vec3f {
        12
    } else {
        4
    }
}

/// The text of a string value whose pool offset is `offset`: empty when the offset is
/// past the pool, else the zero-terminated string there, if it is UTF-8.
pub open spec fn pool_text(pool: Seq<u8>, offset: int) -> Option<Seq<char>> {
    if offset >= pool.len() {
        Some(Seq::empty())
    } else {
        c_string_at(pool, offset)
    }
}

/// Whether a value of type `ty` can be read at `p`.
pub open spec fn value_readable(b: Seq<u8>, pool: Seq<u8>, p: int, e: Endian, ty: ParameterType) -> bool {
    &&& p + value_size(ty) <= b.len()
    &&& ty == ParameterType::String ==> pool_text(pool, u32_at(b, p, e) as int) is Some
}

/// Whether `v` is the value of type `ty` stored at `p`.
pub open spec fn value_matches(v: ParamValue, b: Seq<u8>, pool: Seq<u8>, p: int, e: Endian, ty: ParameterType) -> bool {
    match ty {
        ParameterType::String => v matches ParamValue::String(s) && pool_text(pool, u32_at(b, p, e) as int)
            == Some(s@),
        ParameterType::Int => v == ParamValue::Int(signed32(u32_at(b, p, e) as int) as i32),
        ParameterType::Float => v == ParamValue::Float(u32_at(b, p, e)),
        ParameterType::Bool => v == ParamValue::Bool(u32_at(b, p, e) != 0),
        ParameterType::Vec3f => v == ParamValue::Vec3f(u32_at(b, p, e), u32_at(b, p + 4, e), u32_at(b, p + 8, e)),
    }
}

/// Whether a value counts as set: a non-empty string, a nonzero integer, a float
/// other than zero, a true flag, or any vector.
pub open spec fn value_set(v: ParamValue) -> bool {
    match v {
        ParamValue::String(s) => s@.len() > 0,
        ParamValue::Int(i) => i != 0,
        ParamValue::Float(bits) => bits & 0x7fff_ffff != 0,
        ParamValue::Bool(x) => x,
        ParamValue::Vec3f(..) => true,
    }
}

/// Whether the default `d` of a reference is the value stored at `p`, kept only when set.
pub open spec fn default_matches(d: Option<ParamValue>, b: Seq<u8>, pool: Seq<u8>, p: int, e: Endian, ty: ParameterType) -> bool {
    match d {
        Some(v) => value_matches(v, b, pool, p, e, ty) && value_set(v),
        None => forall|v: ParamValue| value_matches(v, b, pool, p, e, ty) ==> !value_set(v),
    }
}

/// Whether a reference with flag bits `flags` to a parameter of type `ty` names a local
/// blackboard entry.
pub open spec fn names_blackboard(flags: u32, ty: ParameterType) -> bool {
    !(ty == ParameterType::Float || ty == ParameterType::Vec3f) || (((flags >> 14u32) < 3 || (flags
        >> 8u32) & 1 != 0) && (flags >> 9u32) & 1 == 0)
}

/// Whether `a` is the parameter of type `ty` stored at `p`: a word whose top bit is
/// clear, then the value; or a reference word, then its default.
pub open spec fn parameter_matches(a: AsbParameter, b: Seq<u8>, pool: Seq<u8>, p: int, e: Endian, ty: ParameterType) -> bool {
    let bits = u32_at(b, p, e);
    let index = bits & 0xffff;
    let flags = bits >> 16u32;
    if bits < 0x8000_0000 {
        a matches AsbParameter::Value(v) && value_matches(v, b, pool, p + 4, e, ty)
    } else if bits & 0x8100_0000 == 0x8100_0000 {
        a matches AsbParameter::Exb { index: i, default: d } && i == index && default_matches(d, b, pool, p + 4, e, ty)
    } else if names_blackboard(flags, ty) {
        a matches AsbParameter::Blackboard { flags: f, ty: t, index: i, default: d } && f == flags && t == ty
            && i == index && default_matches(d, b, pool, p + 4, e, ty)
    } else {
        a matches AsbParameter::Indexed { flags: f, index: i, default: d } && f == flags && i == index
            && default_matches(d, b, pool, p + 4, e, ty)
    }
}

/// Whether a value counts as set.
pub fn is_set(v: &ParamValue) -> (r: bool)
    ensures
        r == value_set(*v),
{
    match v {
        ParamValue::String(s) => s.as_str().unicode_len() > 0,
        ParamValue::Int(i) => *i != 0,
        ParamValue::Float(bits) => *bits & 0x7fff_ffff != 0,
        ParamValue::Bool(x) => *x,
        ParamValue::Vec3f(..) => true,
    }
}

/// Reads a value of type `ty` at the cursor; a string is a pool offset, read as empty
/// past the pool's end. Fails with `UnexpectedEof` when the input ends, and as
/// `read_c_string_at` does for a string that cannot be read.
pub fn read_value(reader: &mut BinaryReader<'_>, pool: &BinaryReader<'_>, ty: ParameterType) -> (r: Result<ParamValue, Error>)
    requires
        old(reader).wf(),
    ensures
        final(reader).wf(),
        final(reader).bytes() == old(reader).bytes(),
        final(reader).order() == old(reader).order(),
        r is Ok <==> value_readable(old(reader).bytes(), pool.bytes(), old(reader).pos(), old(reader).order(), ty),
        r matches Ok(v) ==> value_matches(v, old(reader).bytes(), pool.bytes(), old(reader).pos(), old(reader).order(), ty)
            && final(reader).pos() == old(reader).pos() + value_size(ty),
        r matches Err(e) ==> e.kind == ErrorKind::UnexpectedEof || e.kind == ErrorKind::InvalidData,
{
    let ghost b = reader.bytes();
    let ghost p = reader.pos();
    match ty {
        ParameterType::String => {
            let offset = reader.read_u32()?;
            if offset as usize >= pool.len() {
                Ok(ParamValue::String(String::new()))
            } else {
                let s = pool.read_c_string_at(offset as usize)?;
                Ok(ParamValue::String(s))
            }
        },
        ParameterType::Int => {
            let v = reader.read_i32()?;
            Ok(ParamValue::Int(v))
        },
        ParameterType::Float => {
            let v = reader.read_u32()?;
            Ok(ParamValue::Float(v))
        },
        ParameterType::Bool => {
            let v = reader.read_u32()?;
            Ok(ParamValue::Bool(v != 0))
        },
        ParameterType::Vec3f => {
            if reader.position() > reader.len() || reader.len() - reader.position() < 12 {
                return Err(crate::error::eof("ASB vector parameter is truncated"));
            }
            let x = reader.read_u32()?;
            let y = reader.read_u32()?;
            let z = reader.read_u32()?;
            Ok(ParamValue::Vec3f(x, y, z))
        },
    }
}

/// Reads a node parameter of type `ty` at the cursor: a flag word, then a value. A
/// word whose top bit is clear is followed by the value itself; otherwise its low half
/// is an index, bits 31 and 24 together mark an expression, and the upper half decides
/// between a blackboard entry and another index, as `parameter_matches` says. Fails as
/// `read_value` does.
pub fn read_parameter(reader: &mut BinaryReader<'_>, pool: &BinaryReader<'_>, ty: ParameterType) -> (r: Result<AsbParameter, Error>)
    requires
        old(reader).wf(),
    ensures
        final(reader).wf(),
        final(reader).bytes() == old(reader).bytes(),
        final(reader).order() == old(reader).order(),
        r is Ok <==> old(reader).pos() + 4 <= old(reader).bytes().len() && value_readable(
            old(reader).bytes(),
            pool.bytes(),
            old(reader).pos() + 4,
            old(reader).order(),
            ty,
        ),
        r matches Ok(a) ==> parameter_matches(a, old(reader).bytes(), pool.bytes(), old(reader).pos(), old(reader).order(), ty)
            && final(reader).pos() == old(reader).pos() + 4 + value_size(ty),
        r matches Err(e) ==> e.kind == ErrorKind::UnexpectedEof || e.kind == ErrorKind::InvalidData,
{
    let bits = reader.read_u32()?;
    if bits < 0x8000_0000 {
        let v = read_value(reader, pool, ty)?;
        return Ok(AsbParameter::Value(v));
    }
    let index = bits & 0xffff;
    let flags = bits >> 16u32;
    let default = read_value(reader, pool, ty)?;
    let default = if is_set(&default) {
        Some(default)
    } else {
        None
    };
    if bits & 0x8100_0000 == 0x8100_0000 {
        Ok(AsbParameter::Exb { index, default })
    } else if !(ty == ParameterType::Float || ty == ParameterType::Vec3f) || (((flags >> 14u32) < 3
        || (flags >> 8u32) & 1 != 0) && (flags >> 9u32) & 1 == 0) {
        Ok(AsbParameter::Blackboard { flags, ty, index, default })
    } else {
        Ok(AsbParameter::Indexed { flags, index, default })
    }
}

} // verus!
