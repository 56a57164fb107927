use vstd::prelude::*;
use crate::asb::data_type::DataType;
use crate::asb::opcode::Opcode;
use crate::asb::source::Source;

verus! {

/// A constant operand of an EXB instruction. A 32-bit float is held as its IEEE 754
/// bit pattern, exactly as the file stores it.
#[derive(Clone, Debug, PartialEq)]
pub enum ExbValue {
    Bool(bool),
    Integer(u32),
    Float(u32),
    String(String),
    Vec3f([u32; 3]),
}

impl ExbValue {
    /// A copy of this value.
    pub fn duplicate(&self) -> (r: Self)
        ensures
            r == *self,
    {
        match self {
            ExbValue::Bool(v) => ExbValue::Bool(*v),
            ExbValue::Integer(v) => ExbValue::Integer(*v),
            ExbValue::Float(v) => ExbValue::Float(*v),
            ExbValue::String(v) => ExbValue::String(v.clone()),
            ExbValue::Vec3f(v) => ExbValue::Vec3f(*v),
        }
    }
}

/// A copy of an optional value.
pub fn duplicate_value(v: &Option<ExbValue>) -> (r: Option<ExbValue>)
    ensures
        r == *v,
{
    match v {
        Some(x) => Some(x.duplicate()),
        None => None,
    }
}

/// One EXB instruction: an operation, its data type and its two operands, or for a
/// user function the static memory slot and the function's signature.
#[derive(Clone, Debug)]
pub struct Instruction {
    pub opcode: Opcode,
    pub data_type: Option<DataType>,
    pub lhs_source: Option<Source>,
    pub rhs_source: Option<Source>,
    pub lhs_index: Option<u16>,
    pub rhs_index: Option<u16>,
    pub lhs_value: Option<ExbValue>,
    pub rhs_value: Option<ExbValue>,
    pub static_memory_index: Option<u16>,
    pub signature: Option<String>,
}

/// The instruction that ends a command: a terminator with no other field set.
pub open spec fn terminator_spec() -> Instruction {
    Instruction {
        opcode: Opcode::Terminator,
        data_type: None,
        lhs_source: None,
        rhs_source: None,
        lhs_index: None,
        rhs_index: None,
        lhs_value: None,
        rhs_value: None,
        static_memory_index: None,
        signature: None,
    }
}

impl Instruction {
    /// The instruction that ends a command.
    pub fn terminator() -> (r: Self)
        ensures
            r == terminator_spec(),
    {
        Instruction {
            opcode: Opcode::Terminator,
            data_type: None,
            lhs_source: None,
            rhs_source: None,
            lhs_index: None,
            rhs_index: None,
            lhs_value: None,
            rhs_value: None,
            static_memory_index: None,
            signature: None,
        }
    }

    /// A copy of this instruction.
    pub fn duplicate(&self) -> (r: Self)
        ensures
            r == *self,
    {
        let signature = match &self.signature {
            Some(s) => Some(s.clone()),
            None => None,
        };
        Instruction {
            opcode: self.opcode,
            data_type: self.data_type,
            lhs_source: self.lhs_source,
            rhs_source: self.rhs_source,
            lhs_index: self.lhs_index,
            rhs_index: self.rhs_index,
            lhs_value: duplicate_value(&self.lhs_value),
            rhs_value: duplicate_value(&self.rhs_value),
            static_memory_index: self.static_memory_index,
            signature,
        }
    }
}

} // verus!
