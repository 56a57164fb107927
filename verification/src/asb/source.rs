use vstd::prelude::*;
use crate::error::{invalid, Error, ErrorKind};

verus! {

/// Where an EXB operand is read from or written to.
#[derive(Clone, Copy, Debug, PartialEq, Eq, Structural)]
pub enum Source {
    Imm,
    ImmStr,
    StaticMem,
    ParamTbl,
    ParamTblStr,
    Output,
    Input,
    Scratch32,
    Scratch64,
    UserOut,
    UserIn,
}

/// The number that stands for each Source in a file.
pub open spec fn source_code(t: Source) -> u8 {
    match t {
        Source::Imm => 0,
        Source::ImmStr => 1,
        Source::StaticMem => 2,
        Source::ParamTbl => 3,
        Source::ParamTblStr => 4,
        Source::Output => 5,
        Source::Input => 6,
        Source::Scratch32 => 7,
        Source::Scratch64 => 8,
        Source::UserOut => 9,
        Source::UserIn => 10,
    }
}

/// The Source that a number stands for, if any.
pub open spec fn source_from_code(v: u8) -> Option<Source> {
    if v == 0 {
        Some(Source::Imm)
    } else if v == 1 {
        Some(Source::ImmStr)
    } else if v == 2 {
        Some(Source::StaticMem)
    } else if v == 3 {
        Some(Source::ParamTbl)
    } else if v == 4 {
        Some(Source::ParamTblStr)
    } else if v == 5 {
        Some(Source::Output)
    } else if v == 6 {
        Some(Source::Input)
    } else if v == 7 {
        Some(Source::Scratch32)
    } else if v == 8 {
        Some(Source::Scratch64)
    } else if v == 9 {
        Some(Source::UserOut)
    } else if v == 10 {
        Some(Source::UserIn)
    } else {
        None
    }
}

/// Decoding a Source's number gives it back, and a number that decodes gives
/// a Source whose number it is.
pub proof fn lemma_source_code_roundtrip(t: Source, v: u8)
    ensures
        source_from_code(source_code(t)) == Some(t),
        source_from_code(v) matches Some(u) ==> source_code(u) == v,
{
}

/// The numbers the EXB format gives its operand sources: 0 immediate, 1 immediate
/// string, 2 static memory, 3 and 4 the parameter table (value and string), 5 output,
/// 6 input, 7 and 8 the 32- and 64-bit scratch areas, 9 user output, 10 user input;
/// every number from 0 to 10 decodes, and no other.
pub proof fn lemma_source_numbers(v: u8)
    ensures
        source_code(Source::Imm) == 0u8,
        source_code(Source::ImmStr) == 1u8,
        source_code(Source::StaticMem) == 2u8,
        source_code(Source::ParamTbl) == 3u8,
        source_code(Source::ParamTblStr) == 4u8,
        source_code(Source::Output) == 5u8,
        source_code(Source::Input) == 6u8,
        source_code(Source::Scratch32) == 7u8,
        source_code(Source::Scratch64) == 8u8,
        source_code(Source::UserOut) == 9u8,
        source_code(Source::UserIn) == 10u8,
        source_from_code(v) is Some <==> v <= 10,
        source_from_code(v) matches Some(t) ==> source_code(t) == v,
{
}

impl Source {
    /// The Source that `value` stands for; fails with `InvalidData` for any other number.
    pub fn from_u8(value: u8) -> (r: Result<Self, Error>)
        ensures
            r is Ok <==> source_from_code(value) is Some,
            r matches Ok(t) ==> source_from_code(value) == Some(t),
            r matches Err(e) ==> e.kind == ErrorKind::InvalidData,
    {
        match value {
            0 => Ok(Source::Imm),
            1 => Ok(Source::ImmStr),
            2 => Ok(Source::StaticMem),
            3 => Ok(Source::ParamTbl),
            4 => Ok(Source::ParamTblStr),
            5 => Ok(Source::Output),
            6 => Ok(Source::Input),
            7 => Ok(Source::Scratch32),
            8 => Ok(Source::Scratch64),
            9 => Ok(Source::UserOut),
            10 => Ok(Source::UserIn),
            _ => Err(invalid("invalid EXB source")),
        }
    }

    /// The number that stands for this Source.
    pub fn as_u8(self) -> (v: u8)
        ensures
            v == source_code(self),
    {
        match self {
            Source::Imm => 0,
            Source::ImmStr => 1,
            Source::StaticMem => 2,
            Source::ParamTbl => 3,
            Source::ParamTblStr => 4,
            Source::Output => 5,
            Source::Input => 6,
            Source::Scratch32 => 7,
            Source::Scratch64 => 8,
            Source::UserOut => 9,
            Source::UserIn => 10,
        }
    }
}

} // verus!
