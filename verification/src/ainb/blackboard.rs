use vstd::prelude::*;

verus! {

/// The type of an AINB blackboard entry.
#[derive(Clone, Copy, Debug, PartialEq, Eq, Structural)]
pub enum BlackboardType {
    String,
    S32,
    U32,
    F32,
    Bool,
    Vec3f,
    VoidPtr,
}

/// The blackboard types in file order.
pub const BLACKBOARD_TYPES: [BlackboardType; 7] = [
    BlackboardType::String,
    BlackboardType::S32,
    BlackboardType::U32,
    BlackboardType::F32,
    BlackboardType::Bool,
    BlackboardType::Vec3f,
    BlackboardType::VoidPtr,
];

/// The name of each blackboard type.
pub open spec fn blackboard_type_name(t: BlackboardType) -> Seq<char> {
    match t {
        BlackboardType::String => "String"@,
        BlackboardType::S32 => "S32"@,
        BlackboardType::U32 => "U32"@,
        BlackboardType::F32 => "F32"@,
        BlackboardType::Bool => "Bool"@,
        BlackboardType::Vec3f => "Vec3f"@,
        BlackboardType::VoidPtr => "VoidPtr"@,
    }
}

/// The names the AINB format gives its blackboard types, in file order: "String",
/// "S32", "U32", "F32", "Bool", "Vec3f" and "VoidPtr"; no two types share a name.
pub proof fn lemma_blackboard_type_names(t1: BlackboardType, t2: BlackboardType)
    ensures
        blackboard_type_name(BlackboardType::String) == "String"@,
        blackboard_type_name(BlackboardType::S32) == "S32"@,
        blackboard_type_name(BlackboardType::U32) == "U32"@,
        blackboard_type_name(BlackboardType::F32) == "F32"@,
        blackboard_type_name(BlackboardType::Bool) == "Bool"@,
        blackboard_type_name(BlackboardType::Vec3f) == "Vec3f"@,
        blackboard_type_name(BlackboardType::VoidPtr) == "VoidPtr"@,
        BLACKBOARD_TYPES@ == seq![BlackboardType::String, BlackboardType::S32, BlackboardType::U32, BlackboardType::F32, BlackboardType::Bool, BlackboardType::Vec3f, BlackboardType::VoidPtr],
        blackboard_type_name(t1) == blackboard_type_name(t2) ==> t1 == t2,
{
    reveal_strlit("String");
    reveal_strlit("S32");
    reveal_strlit("U32");
    reveal_strlit("F32");
    reveal_strlit("Bool");
    reveal_strlit("Vec3f");
    reveal_strlit("VoidPtr");
    if blackboard_type_name(t1) == blackboard_type_name(t2) && t1 != t2 {
        let a = blackboard_type_name(t1);
        let b = blackboard_type_name(t2);
        assert(a.len() == b.len());
        assert(a[0] == b[0] && a[1] == b[1]);
    }
}

impl BlackboardType {
    /// The name of this type.
    pub fn name(self) -> (s: &'static str)
        ensures
            s@ == blackboard_type_name(self),
    {
        match self {
            BlackboardType::String => "String",
            BlackboardType::S32 => "S32",
            BlackboardType::U32 => "U32",
            BlackboardType::F32 => "F32",
            BlackboardType::Bool => "Bool",
            BlackboardType::Vec3f => "Vec3f",
            BlackboardType::VoidPtr => "VoidPtr",
        }
    }

    /// Whether files of `version` have entries of this type: `U32` entries only
    /// from version 0x408 on, every other type always.
    pub fn supported(self, version: u32) -> (b: bool)
        ensures
            b == (version >= 0x408 || self != BlackboardType::U32),
    {
        version >= 0x408 || self != BlackboardType::U32
    }

    /// The size of a default value of this type: twelve for a vector, none for a
    /// pointer, four otherwise.
    pub fn value_size(self) -> (n: usize)
        ensures
            n == (match self {
                BlackboardType::Vec3f => 12usize,
                BlackboardType::VoidPtr => 0usize,
                _ => 4usize,
            }),
    {
        match self {
            BlackboardType::Vec3f => 12,
            BlackboardType::VoidPtr => 0,
            _ => 4,
        }
    }
}

} // verus!
