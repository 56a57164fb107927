use vstd::prelude::*;
use crate::error::{invalid, Error, ErrorKind};

verus! {

/// An EXB instruction operation.
#[derive(Clone, Copy, Debug, PartialEq, Eq, Structural)]
pub enum Opcode {
    Terminator,
    Store,
    Negate,
    NegateBool,
    Add,
    Subtract,
    Multiply,
    Divide,
    Modulus,
    Increment,
    Decrement,
    ScalarMultiplyVec3f,
    ScalarDivideVec3f,
    LeftShift,
    RightShift,
    LessThan,
    LessThanEqual,
    GreaterThan,
    GreaterThanEqual,
    Equal,
    NotEqual,
    And,
    Xor,
    Or,
    LogicalAnd,
    LogicalOr,
    UserFunction,
    JumpIfLhsZero,
    Jump,
}

/// The number that stands for each Opcode in a file.
pub open spec fn opcode_code(t: Opcode) -> u8 {
    match t {
        Opcode::Terminator => 1,
        Opcode::Store => 2,
        Opcode::Negate => 3,
        Opcode::NegateBool => 4,
        Opcode::Add => 5,
        Opcode::Subtract => 6,
        Opcode::Multiply => 7,
        Opcode::Divide => 8,
        Opcode::Modulus => 9,
        Opcode::Increment => 10,
        Opcode::Decrement => 11,
        Opcode::ScalarMultiplyVec3f => 12,
        Opcode::ScalarDivideVec3f => 13,
        Opcode::LeftShift => 14,
        Opcode::RightShift => 15,
        Opcode::LessThan => 16,
        Opcode::LessThanEqual => 17,
        Opcode::GreaterThan => 18,
        Opcode::GreaterThanEqual => 19,
        Opcode::Equal => 20,
        Opcode::NotEqual => 21,
        Opcode::And => 22,
        Opcode::Xor => 23,
        Opcode::Or => 24,
        Opcode::LogicalAnd => 25,
        Opcode::LogicalOr => 26,
        Opcode::UserFunction => 27,
        Opcode::JumpIfLhsZero => 28,
        Opcode::Jump => 29,
    }
}

/// The Opcode that a number stands for, if any.
pub open spec fn opcode_from_code(v: u8) -> Option<Opcode> {
    if v == 1 {
        Some(Opcode::Terminator)
    } else if v == 2 {
        Some(Opcode::Store)
    } else if v == 3 {
        Some(Opcode::Negate)
    } else if v == 4 {
        Some(Opcode::NegateBool)
    } else if v == 5 {
        Some(Opcode::Add)
    } else if v == 6 {
        Some(Opcode::Subtract)
    } else if v == 7 {
        Some(Opcode::Multiply)
    } else if v == 8 {
        Some(Opcode::Divide)
    } else if v == 9 {
        Some(Opcode::Modulus)
    } else if v == 10 {
        Some(Opcode::Increment)
    } else if v == 11 {
        Some(Opcode::Decrement)
    } else if v == 12 {
        Some(Opcode::ScalarMultiplyVec3f)
    } else if v == 13 {
        Some(Opcode::ScalarDivideVec3f)
    } else if v == 14 {
        Some(Opcode::LeftShift)
    } else if v == 15 {
        Some(Opcode::RightShift)
    } else if v == 16 {
        Some(Opcode::LessThan)
    } else if v == 17 {
        Some(Opcode::LessThanEqual)
    } else if v == 18 {
        Some(Opcode::GreaterThan)
    } else if v == 19 {
        Some(Opcode::GreaterThanEqual)
    } else if v == 20 {
        Some(Opcode::Equal)
    } else if v == 21 {
        Some(Opcode::NotEqual)
    } else if v == 22 {
        Some(Opcode::And)
    } else if v == 23 {
        Some(Opcode::Xor)
    } else if v == 24 {
        Some(Opcode::Or)
    } else if v == 25 {
        Some(Opcode::LogicalAnd)
    } else if v == 26 {
        Some(Opcode::LogicalOr)
    } else if v == 27 {
        Some(Opcode::UserFunction)
    } else if v == 28 {
        Some(Opcode::JumpIfLhsZero)
    } else if v == 29 {
        Some(Opcode::Jump)
    } else {
        None
    }
}

/// Decoding a Opcode's number gives it back, and a number that decodes gives
/// a Opcode whose number it is.
pub proof fn lemma_opcode_code_roundtrip(t: Opcode, v: u8)
    ensures
        opcode_from_code(opcode_code(t)) == Some(t),
        opcode_from_code(v) matches Some(u) ==> opcode_code(u) == v,
{
}

/// The numbers the EXB format gives its operations: 1 ends a program, 2 stores, 3 and 4
/// negate, 5 adds, 6 subtracts, 7 multiplies, 8 divides, 9 takes a remainder, 10 and 11
/// increment and decrement, 12 and 13 scale a vector, 14 and 15 shift, 16 to 21
/// compare (less, less or equal, greater, greater or equal, equal, not equal), 22 to 24
/// are bitwise and, xor and or, 25 and 26 logical and and or, 27 calls a user function,
/// 28 jumps when the left operand is zero and 29 jumps; every number from 1 to 29
/// decodes, and no other.
pub proof fn lemma_opcode_numbers(v: u8)
    ensures
        opcode_code(Opcode::Terminator) == 1u8,
        opcode_code(Opcode::Store) == 2u8,
        opcode_code(Opcode::Negate) == 3u8,
        opcode_code(Opcode::NegateBool) == 4u8,
        opcode_code(Opcode::Add) == 5u8,
        opcode_code(Opcode::Subtract) == 6u8,
        opcode_code(Opcode::Multiply) == 7u8,
        opcode_code(Opcode::Divide) == 8u8,
        opcode_code(Opcode::Modulus) == 9u8,
        opcode_code(Opcode::Increment) == 10u8,
        opcode_code(Opcode::Decrement) == 11u8,
        opcode_code(Opcode::ScalarMultiplyVec3f) == 12u8,
        opcode_code(Opcode::ScalarDivideVec3f) == 13u8,
        opcode_code(Opcode::LeftShift) == 14u8,
        opcode_code(Opcode::RightShift) == 15u8,
        opcode_code(Opcode::LessThan) == 16u8,
        opcode_code(Opcode::LessThanEqual) == 17u8,
        opcode_code(Opcode::GreaterThan) == 18u8,
        opcode_code(Opcode::GreaterThanEqual) == 19u8,
        opcode_code(Opcode::Equal) == 20u8,
        opcode_code(Opcode::NotEqual) == 21u8,
        opcode_code(Opcode::And) == 22u8,
        opcode_code(Opcode::Xor) == 23u8,
        opcode_code(Opcode::Or) == 24u8,
        opcode_code(Opcode::LogicalAnd) == 25u8,
        opcode_code(Opcode::LogicalOr) == 26u8,
        opcode_code(Opcode::UserFunction) == 27u8,
        opcode_code(Opcode::JumpIfLhsZero) == 28u8,
        opcode_code(Opcode::Jump) == 29u8,
        opcode_from_code(v) is Some <==> 1 <= v <= 29,
        opcode_from_code(v) matches Some(t) ==> opcode_code(t) == v,
{
}

impl Opcode {
    /// The Opcode that `value` stands for; fails with `InvalidData` for any other number.
    pub fn from_u8(value: u8) -> (r: Result<Self, Error>)
        ensures
            r is Ok <==> opcode_from_code(value) is Some,
            r matches Ok(t) ==> opcode_from_code(value) == Some(t),
            r matches Err(e) ==> e.kind == ErrorKind::InvalidData,
    {
        match value {
            1 => Ok(Opcode::Terminator),
            2 => Ok(Opcode::Store),
            3 => Ok(Opcode::Negate),
            4 => Ok(Opcode::NegateBool),
            5 => Ok(Opcode::Add),
            6 => Ok(Opcode::Subtract),
            7 => Ok(Opcode::Multiply),
            8 => Ok(Opcode::Divide),
            9 => Ok(Opcode::Modulus),
            10 => Ok(Opcode::Increment),
            11 => Ok(Opcode::Decrement),
            12 => Ok(Opcode::ScalarMultiplyVec3f),
            13 => Ok(Opcode::ScalarDivideVec3f),
            14 => Ok(Opcode::LeftShift),
            15 => Ok(Opcode::RightShift),
            16 => Ok(Opcode::LessThan),
            17 => Ok(Opcode::LessThanEqual),
            18 => Ok(Opcode::GreaterThan),
            19 => Ok(Opcode::GreaterThanEqual),
            20 => Ok(Opcode::Equal),
            21 => Ok(Opcode::NotEqual),
            22 => Ok(Opcode::And),
            23 => Ok(Opcode::Xor),
            24 => Ok(Opcode::Or),
            25 => Ok(Opcode::LogicalAnd),
            26 => Ok(Opcode::LogicalOr),
            27 => Ok(Opcode::UserFunction),
            28 => Ok(Opcode::JumpIfLhsZero),
            29 => Ok(Opcode::Jump),
            _ => Err(invalid("invalid EXB opcode")),
        }
    }

    /// The number that stands for this Opcode.
    pub fn as_u8(self) -> (v: u8)
        ensures
            v == opcode_code(self),
    {
        match self {
            Opcode::Terminator => 1,
            Opcode::Store => 2,
            Opcode::Negate => 3,
            Opcode::NegateBool => 4,
            Opcode::Add => 5,
            Opcode::Subtract => 6,
            Opcode::Multiply => 7,
            Opcode::Divide => 8,
            Opcode::Modulus => 9,
            Opcode::Increment => 10,
            Opcode::Decrement => 11,
            Opcode::ScalarMultiplyVec3f => 12,
            Opcode::ScalarDivideVec3f => 13,
            Opcode::LeftShift => 14,
            Opcode::RightShift => 15,
            Opcode::LessThan => 16,
            Opcode::LessThanEqual => 17,
            Opcode::GreaterThan => 18,
            Opcode::GreaterThanEqual => 19,
            Opcode::Equal => 20,
            Opcode::NotEqual => 21,
            Opcode::And => 22,
            Opcode::Xor => 23,
            Opcode::Or => 24,
            Opcode::LogicalAnd => 25,
            Opcode::LogicalOr => 26,
            Opcode::UserFunction => 27,
            Opcode::JumpIfLhsZero => 28,
            Opcode::Jump => 29,
        }
    }
}

} // verus!
