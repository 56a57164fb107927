use vstd::prelude::*;
use crate::error::{invalid, Error, ErrorKind};

verus! {

/// The type of an EXB value.
#[derive(Clone, Copy, Debug, PartialEq, Eq, Structural)]
pub enum DataType {
    Unset,
    ImmediateOrUser,
    Bool,
    S32,
    F32,
    String,
    Vec3f,
}

/// The number that stands for each DataType in a file.
pub open spec fn data_type_code(t: DataType) -> u16 {
    match t {
        DataType::Unset => 0,
        DataType::ImmediateOrUser => 1,
        DataType::Bool => 2,
        DataType::S32 => 3,
        DataType::F32 => 4,
        DataType::String => 5,
        DataType::Vec3f => 6,
    }
}

/// The DataType that a number stands for, if any.
pub open spec fn data_type_from_code(v: u16) -> Option<DataType> {
    if v == 0 {
        Some(DataType::Unset)
    } else if v == 1 {
        Some(DataType::ImmediateOrUser)
    } else if v == 2 {
        Some(DataType::Bool)
    } else if v == 3 {
        Some(DataType::S32)
    } else if v == 4 {
        Some(DataType::F32)
    } else if v == 5 {
        Some(DataType::String)
    } else if v == 6 {
        Some(DataType::Vec3f)
    } else {
        None
    }
}

/// Decoding a DataType's number gives it back, and a number that decodes gives
/// a DataType whose number it is.
pub proof fn lemma_data_type_code_roundtrip(t: DataType, v: u16)
    ensures
        data_type_from_code(data_type_code(t)) == Some(t),
        data_type_from_code(v) matches Some(u) ==> data_type_code(u) == v,
{
}

/// The numbers the EXB format gives its value types: 0 unset, 1 immediate or user,
/// 2 bool, 3 signed 32-bit, 4 32-bit float, 5 string, 6 three-float vector; every number
/// from 0 to 6 decodes, and no other.
pub proof fn lemma_data_type_numbers(v: u16)
    ensures
        data_type_code(DataType::Unset) == 0u16,
        data_type_code(DataType::ImmediateOrUser) == 1u16,
        data_type_code(DataType::Bool) == 2u16,
        data_type_code(DataType::S32) == 3u16,
        data_type_code(DataType::F32) == 4u16,
        data_type_code(DataType::String) == 5u16,
        data_type_code(DataType::Vec3f) == 6u16,
        data_type_from_code(v) is Some <==> v <= 6,
        data_type_from_code(v) matches Some(t) ==> data_type_code(t) == v,
{
}

impl DataType {
    /// The DataType that `value` stands for; fails with `InvalidData` for any other number.
    pub fn from_u16(value: u16) -> (r: Result<Self, Error>)
        ensures
            r is Ok <==> data_type_from_code(value) is Some,
            r matches Ok(t) ==> data_type_from_code(value) == Some(t),
            r matches Err(e) ==> e.kind == ErrorKind::InvalidData,
    {
        match value {
            0 => Ok(DataType::Unset),
            1 => Ok(DataType::ImmediateOrUser),
            2 => Ok(DataType::Bool),
            3 => Ok(DataType::S32),
            4 => Ok(DataType::F32),
            5 => Ok(DataType::String),
            6 => Ok(DataType::Vec3f),
            _ => Err(invalid("invalid EXB data type")),
        }
    }

    /// The number that stands for this DataType.
    pub fn as_u16(self) -> (v: u16)
        ensures
            v == data_type_code(self),
    {
        match self {
            DataType::Unset => 0,
            DataType::ImmediateOrUser => 1,
            DataType::Bool => 2,
            DataType::S32 => 3,
            DataType::F32 => 4,
            DataType::String => 5,
            DataType::Vec3f => 6,
        }
    }

    /// The size in bytes of a value of this type: twelve for a vector, else four.
    pub fn byte_size(self) -> (n: u32)
        ensures
            n == (if self == DataType::Vec3f { 12u32 } else { 4u32 }),
    {
        match self {
            DataType::Vec3f => 12,
            _ => 4,
        }
    }
}

} // verus!
