use vstd::prelude::*;
use crate::ainb::common::{pool_fits, pool_step, AinbWriter};
use crate::ainb::node::read_pool_string;
use crate::binary::{bits16, c_string_at, encode_u16, encode_u32, signed16, u16_at, u32_at, BinaryReader, Endian};
use crate::error::{invalid, Error, ErrorKind};
use crate::text::str_eq;

verus! {

/// The value type of an AINB parameter.
#[derive(Clone, Copy, Debug, PartialEq, Eq, Structural)]
pub enum ParamType {
    Int,
    Bool,
    Float,
    String,
    Vector3F,
    Pointer,
}

/// The parameter types in file order.
pub const PARAM_TYPES: [ParamType; 6] = [
    ParamType::Int,
    ParamType::Bool,
    ParamType::Float,
    ParamType::String,
    ParamType::Vector3F,
    ParamType::Pointer,
];

/// The name of each parameter type.
pub open spec fn param_type_name(t: ParamType) -> Seq<char> {
    match t {
        ParamType::Int => "Int"@,
        ParamType::Bool => "Bool"@,
        ParamType::Float => "Float"@,
        ParamType::String => "String"@,
        ParamType::Vector3F => "Vector3F"@,
        ParamType::Pointer => "Pointer"@,
    }
}

/// The names the AINB format gives its parameter types, in file order: "Int",
/// "Bool", "Float", "String", "Vector3F" and "Pointer"; no two types share a name.
pub proof fn lemma_param_type_names(t1: ParamType, t2: ParamType)
    ensures
        param_type_name(ParamType::Int) == "Int"@,
        param_type_name(ParamType::Bool) == "Bool"@,
        param_type_name(ParamType::Float) == "Float"@,
        param_type_name(ParamType::String) == "String"@,
        param_type_name(ParamType::Vector3F) == "Vector3F"@,
        param_type_name(ParamType::Pointer) == "Pointer"@,
        PARAM_TYPES@ == seq![ParamType::Int, ParamType::Bool, ParamType::Float, ParamType::String, ParamType::Vector3F, ParamType::Pointer],
        param_type_name(t1) == param_type_name(t2) ==> t1 == t2,
{
    reveal_strlit("Int");
    reveal_strlit("Bool");
    reveal_strlit("Float");
    reveal_strlit("String");
    reveal_strlit("Vector3F");
    reveal_strlit("Pointer");
    if param_type_name(t1) == param_type_name(t2) && t1 != t2 {
        let a = param_type_name(t1);
        let b = param_type_name(t2);
        assert(a.len() == b.len());
        assert(a[0] == b[0]);
    }
}

impl ParamType {
    /// The name of this type.
    pub fn name(self) -> (s: &'static str)
        ensures
            s@ == param_type_name(self),
    {
        match self {
            ParamType::Int => "Int",
            ParamType::Bool => "Bool",
            ParamType::Float => "Float",
            ParamType::String => "String",
            ParamType::Vector3F => "Vector3F",
            ParamType::Pointer => "Pointer",
        }
    }

    /// The size of a property record of this type: 0x14 for a vector, else 0x0c.
    pub fn property_size(self) -> (n: usize)
        ensures
            n == (if self == ParamType::Vector3F { 0x14usize } else { 0x0cusize }),
    {
        if self == ParamType::Vector3F {
            0x14
        } else {
            0x0c
        }
    }

    /// The size of an input record of this type: 0x18 for a vector, 0x14 for a
    /// pointer, else 0x10.
    pub fn input_size(self) -> (n: usize)
        ensures
            n == (match self {
                ParamType::Vector3F => 0x18usize,
                ParamType::Pointer => 0x14usize,
                _ => 0x10usize,
            }),
    {
        match self {
            ParamType::Vector3F => 0x18,
            ParamType::Pointer => 0x14,
            _ => 0x10,
        }
    }

    /// The size of an output record of this type: 8 for a pointer, else 4.
    pub fn output_size(self) -> (n: usize)
        ensures
            n == (if self == ParamType::Pointer { 8usize } else { 4usize }),
    {
        if self == ParamType::Pointer {
            8
        } else {
            4
        }
    }
}

/// The flags of a parameter source.
#[derive(Clone, Debug)]
pub struct ParamFlags {
    pub names: Vec<String>,
    pub expression_index: Option<u16>,
    pub blackboard_index: Option<u16>,
    pub vector_component: Option<String>,
}

/// The abstract content of parameter flags: flag names, expression index,
/// blackboard index and vector component.
pub type FlagsView = (Seq<Seq<char>>, Option<u16>, Option<u16>, Option<Seq<char>>);

/// The names of the flag bits set in `raw`: bit 23 `Uses Default`, then bit 24 `Is Output`.
pub open spec fn raw_flag_names(raw: u32) -> Seq<Seq<char>> {
    let a = if raw & 0x0080_0000 != 0 { seq!["Uses Default"@] } else { Seq::empty() };
    let b = if raw & 0x0100_0000 != 0 { seq!["Is Output"@] } else { Seq::empty() };
    a + b
}

/// Whether `raw` refers to an expression: all of bits 31, 30 and 25 set.
pub open spec fn raw_is_expression(raw: u32) -> bool {
    raw & 0xc200_0000 == 0xc200_0000
}

/// Whether `raw` refers to a blackboard entry: some but not all of bits 31, 30, 25 set.
pub open spec fn raw_is_blackboard(raw: u32) -> bool {
    !raw_is_expression(raw) && raw & 0xc200_0000 != 0
}

/// The vector component named by bits 26 and 27 of `raw`, if any.
pub open spec fn raw_component(raw: u32) -> Option<Seq<char>> {
    let c = (raw >> 26) & 3;
    if c == 1 {
        Some("X"@)
    } else if c == 2 {
        Some("Y"@)
    } else if c == 3 {
        Some("Z"@)
    } else {
        None
    }
}

/// The flags that a raw 32-bit flag word decodes to.
pub open spec fn flags_from_raw(raw: u32) -> FlagsView {
    (
        raw_flag_names(raw),
        if raw_is_expression(raw) { Some(raw as u16) } else { None },
        if raw_is_blackboard(raw) { Some(raw as u16) } else { None },
        if raw_is_blackboard(raw) { raw_component(raw) } else { None },
    )
}

/// The bit of a flag name, if it is known.
pub open spec fn flag_bit(name: Seq<char>) -> Option<u32> {
    if name == "Uses Default"@ {
        Some(0x0080_0000)
    } else if name == "Is Output"@ {
        Some(0x0100_0000)
    } else {
        None
    }
}

/// The bits of a list of flag names, or `None` when one is unknown.
pub open spec fn names_bits(names: Seq<Seq<char>>) -> Option<u32>
    decreases names.len(),
{
    if names.len() == 0 {
        Some(0)
    } else {
        match (names_bits(names.drop_last()), flag_bit(names.last())) {
            (Some(a), Some(b)) => Some(a | b),
            _ => None,
        }
    }
}

/// The bits of a vector component name, or `None` when it is unknown.
pub open spec fn component_bits(c: Option<Seq<char>>) -> Option<u32> {
    match c {
        None => Some(0),
        Some(n) => if n == "X"@ {
            Some(1u32 << 26)
        } else if n == "Y"@ {
            Some(2u32 << 26)
        } else if n == "Z"@ {
            Some(3u32 << 26)
        } else {
            None
        },
    }
}

/// The raw 32-bit word of flags, or `None` when a name is unknown.
pub open spec fn flags_to_raw(f: FlagsView) -> Option<u32> {
    match names_bits(f.0) {
        None => None,
        Some(n) => match f.1 {
            Some(index) => Some(n | 0xc200_0000 | index as u32),
            None => match f.2 {
                Some(index) => match component_bits(f.3) {
                    Some(c) => Some(n | 0x8000_0000 | index as u32 | c),
                    None => None,
                },
                None => Some(n),
            },
        },
    }
}

/// Whether flags are in the form decoding a raw word gives: known flag names, each
/// once and in bit order; an expression or a blackboard reference but not both; and a
/// known vector component only on a blackboard reference.
pub open spec fn flags_canonical(f: FlagsView) -> bool {
    &&& (f.0 == Seq::<Seq<char>>::empty() || f.0 == seq!["Uses Default"@] || f.0 == seq![
        "Is Output"@,
    ] || f.0 == seq!["Uses Default"@, "Is Output"@])
    &&& !(f.1 is Some && f.2 is Some)
    &&& f.3 is Some ==> f.2 is Some && f.1 is None && (f.3 == Some("X"@) || f.3 == Some("Y"@)
        || f.3 == Some("Z"@))
}

/// What the bits of a parameter's flag word mean: bit 23 (0x0080_0000) is the flag
/// "Uses Default" and bit 24 (0x0100_0000) the flag "Is Output", each named exactly
/// when its bit is set, "Uses Default" first; bits 26 and 27 hold 1 for the vector
/// component "X", 2 for "Y", 3 for "Z" and 0 for none. Encoding maps each name back
/// to the same bit.
pub proof fn lemma_param_flag_bits(raw: u32)
    ensures
        raw_flag_names(raw).contains("Uses Default"@) <==> raw & 0x0080_0000 != 0,
        raw_flag_names(raw).contains("Is Output"@) <==> raw & 0x0100_0000 != 0,
        raw_flag_names(raw).len() == (if raw & 0x0080_0000 != 0 { 1int } else { 0int }) + (if raw
            & 0x0100_0000 != 0 { 1int } else { 0int }),
        raw & 0x0080_0000 != 0 ==> raw_flag_names(raw)[0] == "Uses Default"@,
        flag_bit("Uses Default"@) == Some(0x0080_0000u32),
        flag_bit("Is Output"@) == Some(0x0100_0000u32),
        raw_component(raw) == Some("X"@) <==> (raw >> 26) & 3 == 1,
        raw_component(raw) == Some("Y"@) <==> (raw >> 26) & 3 == 2,
        raw_component(raw) == Some("Z"@) <==> (raw >> 26) & 3 == 3,
        raw_component(raw) is None <==> (raw >> 26) & 3 == 0,
        component_bits(Some("X"@)) == Some(1u32 << 26),
        component_bits(Some("Y"@)) == Some(2u32 << 26),
        component_bits(Some("Z"@)) == Some(3u32 << 26),
{
    reveal_strlit("Uses Default");
    reveal_strlit("Is Output");
    reveal_strlit("X");
    reveal_strlit("Y");
    reveal_strlit("Z");
    let names = raw_flag_names(raw);
    assert("Uses Default"@ != "Is Output"@) by {
        assert("Uses Default"@[0] != "Is Output"@[0]);
    }
    assert("X"@ != "Y"@ && "X"@ != "Z"@ && "Y"@ != "Z"@) by {
        assert("X"@[0] != "Y"@[0] && "X"@[0] != "Z"@[0] && "Y"@[0] != "Z"@[0]);
    }
    let c = (raw >> 26) & 3;
    assert(c <= 3) by (bit_vector)
        requires
            c == (raw >> 26) & 3,
    ;
    if names.contains("Uses Default"@) {
        let i = choose|i: int| 0 <= i < names.len() && names[i] == "Uses Default"@;
        assert(raw & 0x0080_0000 != 0);
    }
    if names.contains("Is Output"@) {
        let i = choose|i: int| 0 <= i < names.len() && names[i] == "Is Output"@;
        assert(raw & 0x0100_0000 != 0);
    }
    if raw & 0x0080_0000 != 0 {
        assert(names[0] == "Uses Default"@);
    }
    if raw & 0x0100_0000 != 0 {
        assert(names[names.len() - 1] == "Is Output"@);
    }
}

proof fn lemma_raw_bits(n: u32, index: u16, c: u32)
    requires
        n == 0 || n == 0x0080_0000 || n == 0x0100_0000 || n == 0x0180_0000,
        c == 0 || c == 1u32 << 26 || c == 2u32 << 26 || c == 3u32 << 26,
    ensures
        ({
            let raw = n | 0xc200_0000 | index as u32;
            &&& raw & 0x0080_0000 == n & 0x0080_0000
            &&& raw & 0x0100_0000 == n & 0x0100_0000
            &&& raw & 0xc200_0000 == 0xc200_0000
            &&& raw as u16 == index
        }),
        ({
            let raw = n | 0x8000_0000 | index as u32 | c;
            &&& raw & 0x0080_0000 == n & 0x0080_0000
            &&& raw & 0x0100_0000 == n & 0x0100_0000
            &&& raw & 0xc200_0000 == 0x8000_0000
            &&& raw as u16 == index
            &&& (raw >> 26) & 3 == c >> 26
        }),
        n & 0xc200_0000 == 0,
        0u32 >> 26 == 0 && (1u32 << 26) >> 26 == 1 && (2u32 << 26) >> 26 == 2 && (3u32 << 26) >> 26 == 3,
{
    assert(n & 0xc200_0000 == 0) by (bit_vector)
        requires
            n == 0 || n == 0x0080_0000 || n == 0x0100_0000 || n == 0x0180_0000,
    ;
    assert(0u32 >> 26 == 0 && (1u32 << 26) >> 26 == 1 && (2u32 << 26) >> 26 == 2 && (3u32 << 26) >> 26 == 3) by (bit_vector);
    let r1 = n | 0xc200_0000 | index as u32;
    assert(r1 & 0x0080_0000 == n & 0x0080_0000 && r1 & 0x0100_0000 == n & 0x0100_0000 && r1
        & 0xc200_0000 == 0xc200_0000 && r1 as u16 == index) by (bit_vector)
        requires
            r1 == n | 0xc200_0000 | index as u32,
            n == 0 || n == 0x0080_0000 || n == 0x0100_0000 || n == 0x0180_0000,
    ;
    let r2 = n | 0x8000_0000 | index as u32 | c;
    assert(r2 & 0x0080_0000 == n & 0x0080_0000 && r2 & 0x0100_0000 == n & 0x0100_0000 && r2
        & 0xc200_0000 == 0x8000_0000 && r2 as u16 == index && (r2 >> 26) & 3 == c >> 26) by (bit_vector)
        requires
            r2 == n | 0x8000_0000 | index as u32 | c,
            n == 0 || n == 0x0080_0000 || n == 0x0100_0000 || n == 0x0180_0000,
            c == 0 || c == 1u32 << 26 || c == 2u32 << 26 || c == 3u32 << 26,
    ;
}

/// Encoding flags in the form a raw word decodes to, then decoding the word, gives
/// the flags back.
pub proof fn lemma_canonical_flags_roundtrip(f: FlagsView)
    requires
        flags_canonical(f),
    ensures
        flags_to_raw(f) matches Some(raw) && flags_from_raw(raw) == f,
{
    let ud = "Uses Default"@;
    let io = "Is Output"@;
    reveal_strlit("Uses Default");
    reveal_strlit("Is Output");
    reveal_strlit("X");
    reveal_strlit("Y");
    reveal_strlit("Z");
    assert(ud != io) by {
        assert(ud.len() != io.len());
    }
    assert(flag_bit(ud) == Some(0x0080_0000u32));
    assert(flag_bit(io) == Some(0x0100_0000u32));
    let n: u32 = if f.0 == Seq::<Seq<char>>::empty() {
        0
    } else if f.0 == seq![ud] {
        0x0080_0000
    } else if f.0 == seq![io] {
        0x0100_0000
    } else {
        0x0180_0000
    };
    assert(seq![ud].drop_last() =~= Seq::<Seq<char>>::empty());
    assert(seq![io].drop_last() =~= Seq::<Seq<char>>::empty());
    assert(seq![ud, io].drop_last() =~= seq![ud]);
    assert(0u32 | 0x0080_0000u32 == 0x0080_0000u32 && 0u32 | 0x0100_0000u32 == 0x0100_0000u32
        && 0x0080_0000u32 | 0x0100_0000u32 == 0x0180_0000u32) by (bit_vector);
    assert(names_bits(Seq::<Seq<char>>::empty()) == Some(0u32));
    assert(names_bits(seq![ud]) == Some(0x0080_0000u32));
    assert(names_bits(seq![io]) == Some(0x0100_0000u32));
    assert(names_bits(seq![ud, io]) == Some(0x0180_0000u32));
    assert(seq![ud] != seq![io]) by {
        assert(seq![ud][0] != seq![io][0]);
    }
    assert(seq![ud, io] != seq![ud] && seq![ud, io] != seq![io]) by {
        assert(seq![ud, io].len() != seq![ud].len());
    }
    assert(names_bits(f.0) == Some(n));
    assert(0x0080_0000u32 & 0x0080_0000 != 0 && 0x0080_0000u32 & 0x0100_0000 == 0 && 0x0100_0000u32
        & 0x0080_0000 == 0 && 0x0100_0000u32 & 0x0100_0000 != 0 && 0x0180_0000u32 & 0x0080_0000 != 0
        && 0x0180_0000u32 & 0x0100_0000 != 0 && 0u32 & 0x0080_0000 == 0 && 0u32 & 0x0100_0000 == 0)
        by (bit_vector);
    assert(raw_flag_names(n) =~= f.0);
    let c: u32 = match f.3 {
        None => 0,
        Some(name) => if name == "X"@ {
            1u32 << 26
        } else if name == "Y"@ {
            2u32 << 26
        } else {
            3u32 << 26
        },
    };
    assert("X"@ != "Y"@ && "X"@ != "Z"@ && "Y"@ != "Z"@) by {
        assert("X"@[0] != "Y"@[0] && "X"@[0] != "Z"@[0] && "Y"@[0] != "Z"@[0]);
    }
    match f.1 {
        Some(index) => {
            lemma_raw_bits(n, index, 0);
            let raw = n | 0xc200_0000 | index as u32;
            assert(flags_to_raw(f) == Some(raw));
            assert(raw_flag_names(raw) =~= raw_flag_names(n));
            assert(raw_is_expression(raw));
            assert(flags_from_raw(raw) == (f.0, Some(index), None::<u16>, None::<Seq<char>>));
        },
        None => match f.2 {
            Some(index) => {
                lemma_raw_bits(n, index, c);
                assert(component_bits(f.3) == Some(c));
                let raw = n | 0x8000_0000 | index as u32 | c;
                assert(flags_to_raw(f) == Some(raw));
                assert(raw_flag_names(raw) =~= raw_flag_names(n));
                assert(raw_is_blackboard(raw));
                assert(raw_component(raw) == f.3);
            },
            None => {
                lemma_raw_bits(n, 0, 0);
                assert(flags_to_raw(f) == Some(n));
            },
        },
    }
}

impl ParamFlags {
    /// The abstract content of these flags.
    pub open spec fn view(&self) -> FlagsView {
        (
            self.names@.map_values(|s: String| s@),
            self.expression_index,
            self.blackboard_index,
            match self.vector_component {
                Some(s) => Some(s@),
                None => None,
            },
        )
    }

    /// Decodes a raw 32-bit flag word.
    pub fn from_raw(raw: u32) -> (f: Self)
        ensures
            f.view() == flags_from_raw(raw),
    {
        let mut names: Vec<String> = Vec::new();
        if raw & 0x0080_0000 != 0 {
            names.push("Uses Default".to_owned());
        }
        if raw & 0x0100_0000 != 0 {
            names.push("Is Output".to_owned());
        }
        let expression = raw & 0xc200_0000 == 0xc200_0000;
        let blackboard = !expression && raw & 0xc200_0000 != 0;
        let c = (raw >> 26) & 3;
        let component = if c == 1 {
            Some("X".to_owned())
        } else if c == 2 {
            Some("Y".to_owned())
        } else if c == 3 {
            Some("Z".to_owned())
        } else {
            None
        };
        let f = ParamFlags {
            names,
            expression_index: if expression { Some(raw as u16) } else { None },
            blackboard_index: if blackboard { Some(raw as u16) } else { None },
            vector_component: if blackboard { component } else { None },
        };
        assert(f.names@.map_values(|s: String| s@) =~= raw_flag_names(raw));
        f
    }

    /// Encodes the flags as a raw 32-bit word; fails with `InvalidData` on an unknown
    /// flag name, or an unknown vector component of a blackboard reference.
    pub fn to_raw(&self) -> (r: Result<u32, Error>)
        ensures
            r is Ok <==> flags_to_raw(self.view()) is Some,
            r matches Ok(v) ==> flags_to_raw(self.view()) == Some(v),
            r matches Err(e) ==> e.kind == ErrorKind::InvalidData,
    {
        let ghost names = self.view().0;
        let mut raw: u32 = 0;
        let mut i: usize = 0;
        while i < self.names.len()
            invariant
                i <= self.names@.len(),
                names == self.names@.map_values(|s: String| s@),
                names_bits(names.subrange(0, i as int)) == Some(raw),
            decreases self.names@.len() - i,
        {
            let name = self.names[i].as_str();
            proof {
                assert(names.subrange(0, i + 1).drop_last() =~= names.subrange(0, i as int));
                assert(names[i as int] == name@);
            }
            if str_eq(name, "Uses Default") {
                raw = raw | 0x0080_0000;
            } else if str_eq(name, "Is Output") {
                raw = raw | 0x0100_0000;
            } else {
                proof {
                    lemma_names_bits_prefix(names, i + 1);
                }
                return Err(invalid("unknown parameter flag"));
            }
            i = i + 1;
        }
        assert(names.subrange(0, names.len() as int) =~= names);
        assert(names_bits(names) == Some(raw));
        match self.expression_index {
            Some(index) => {
                assert(self.view().1 == Some(index));
                raw = raw | 0xc200_0000 | index as u32;
                assert(flags_to_raw(self.view()) == Some(raw));
            },
            None => match self.blackboard_index {
                Some(index) => {
                    let comp: u32 = match &self.vector_component {
                        None => 0,
                        Some(c) => {
                            if str_eq(c.as_str(), "X") {
                                1u32 << 26
                            } else if str_eq(c.as_str(), "Y") {
                                2u32 << 26
                            } else if str_eq(c.as_str(), "Z") {
                                3u32 << 26
                            } else {
                                return Err(invalid("unknown vector component"));
                            }
                        },
                    };
                    assert(component_bits(self.view().3) == Some(comp));
                    raw = raw | 0x8000_0000 | index as u32 | comp;
                },
                None => {
                    assert(flags_to_raw(self.view()) == Some(raw));
                },
            },
        }
        Ok(raw)
    }

    /// A copy of these flags.
    pub fn duplicate(&self) -> (r: Self)
        ensures
            r.view() == self.view(),
    {
        let mut names: Vec<String> = Vec::new();
        let mut i: usize = 0;
        while i < self.names.len()
            invariant
                i <= self.names@.len(),
                names@.len() == i,
                forall|j: int| 0 <= j < i ==> (#[trigger] names@[j])@ == self.names@[j]@,
            decreases self.names@.len() - i,
        {
            names.push(self.names[i].clone());
            i = i + 1;
        }
        assert(names@.map_values(|s: String| s@) =~= self.names@.map_values(|s: String| s@));
        let vector_component = match &self.vector_component {
            Some(c) => Some(c.clone()),
            None => None,
        };
        ParamFlags {
            names,
            expression_index: self.expression_index,
            blackboard_index: self.blackboard_index,
            vector_component,
        }
    }

    /// Whether the source is an expression.
    pub fn is_expression(&self) -> (b: bool)
        ensures
            b == (self.expression_index is Some),
    {
        self.expression_index.is_some()
    }
}

proof fn lemma_names_bits_prefix(names: Seq<Seq<char>>, i: int)
    requires
        0 <= i <= names.len(),
        names_bits(names.subrange(0, i)) is None,
    ensures
        names_bits(names) is None,
    decreases names.len() - i,
{
    if i < names.len() {
        assert(names.drop_last().subrange(0, i) =~= names.subrange(0, i));
        lemma_names_bits_prefix(names.drop_last(), i);
    } else {
        assert(names.subrange(0, i) =~= names);
    }
}

/// Re-encoding decoded flags always succeeds, and decoding the result gives the same
/// flags: the raw word `to_raw` writes for the flags `from_raw` read stands for them.
pub proof fn lemma_flags_roundtrip(raw: u32)
    ensures
        flags_to_raw(flags_from_raw(raw)) is Some,
        flags_from_raw(flags_to_raw(flags_from_raw(raw))->Some_0) == flags_from_raw(raw),
{
    let f = flags_from_raw(raw);
    let names = raw_flag_names(raw);
    let n: u32 = (raw & 0x0080_0000) | (raw & 0x0100_0000);
    assert(names_bits(names) == Some(n)) by {
        reveal_with_fuel(names_bits, 3);
        reveal_strlit("Uses Default");
        reveal_strlit("Is Output");
        assert("Uses Default"@.len() == 12 && "Is Output"@.len() == 9);
        let a = raw & 0x0080_0000;
        let b = raw & 0x0100_0000;
        assert(a == 0 || a == 0x0080_0000u32) by (bit_vector)
            requires
                a == raw & 0x0080_0000,
        ;
        assert(b == 0 || b == 0x0100_0000u32) by (bit_vector)
            requires
                b == raw & 0x0100_0000,
        ;
        if a != 0 && b != 0 {
            assert(names =~= seq!["Uses Default"@, "Is Output"@]);
            assert(names.drop_last() =~= seq!["Uses Default"@]);
            assert(seq!["Uses Default"@].drop_last() =~= Seq::<Seq<char>>::empty());
            assert(flag_bit("Uses Default"@) == Some(0x0080_0000u32));
            assert(flag_bit("Is Output"@) == Some(0x0100_0000u32));
            assert(names_bits(Seq::<Seq<char>>::empty()) == Some(0u32));
            assert(names_bits(seq!["Uses Default"@]) == Some(0u32 | 0x0080_0000u32));
            assert(names_bits(names) == Some((0u32 | 0x0080_0000u32) | 0x0100_0000u32));
            assert((0u32 | 0x0080_0000u32) | 0x0100_0000u32 == n) by (bit_vector)
                requires
                    a == 0x0080_0000u32,
                    b == 0x0100_0000u32,
                    n == a | b,
            ;
        } else if a != 0 {
            assert(names =~= seq!["Uses Default"@]);
            assert(names.drop_last() =~= Seq::<Seq<char>>::empty());
            assert((0u32 | 0x0080_0000u32) == n) by (bit_vector)
                requires
                    a == 0x0080_0000u32,
                    b == 0,
                    n == a | b,
            ;
        } else if b != 0 {
            assert(names =~= seq!["Is Output"@]);
            assert(names.drop_last() =~= Seq::<Seq<char>>::empty());
            assert((0u32 | 0x0100_0000u32) == n) by (bit_vector)
                requires
                    a == 0,
                    b == 0x0100_0000u32,
                    n == a | b,
            ;
        } else {
            assert(names =~= Seq::<Seq<char>>::empty());
            assert(0u32 == n) by (bit_vector)
                requires
                    a == 0,
                    b == 0,
                    n == a | b,
            ;
        }
    }
    let idx = raw as u16;
    if raw_is_expression(raw) {
        let r2: u32 = n | 0xc200_0000 | idx as u32;
        assert(flags_to_raw(f) == Some(r2));
        assert(r2 & 0xc200_0000 == 0xc200_0000) by (bit_vector)
            requires
                r2 == n | 0xc200_0000 | idx as u32,
        ;
        assert(r2 as u16 == idx && r2 & 0x0080_0000 == raw & 0x0080_0000 && r2 & 0x0100_0000
            == raw & 0x0100_0000) by (bit_vector)
            requires
                r2 == n | 0xc200_0000 | idx as u32,
                n == (raw & 0x0080_0000) | (raw & 0x0100_0000),
                idx == raw as u16,
        ;
    } else if raw_is_blackboard(raw) {
        let c: u32 = (raw >> 26) & 3;
        let cb: u32 = c << 26;
        assert(component_bits(raw_component(raw)) == Some(cb)) by {
            reveal_strlit("X");
            reveal_strlit("Y");
            reveal_strlit("Z");
            assert("X"@[0] == 'X' && "Y"@[0] == 'Y' && "Z"@[0] == 'Z');
            assert(c <= 3) by (bit_vector)
                requires
                    c == (raw >> 26) & 3,
            ;
            assert((c == 0 ==> cb == 0) && (c == 1 ==> cb == 1u32 << 26) && (c == 2 ==> cb == 2u32 << 26)
                && (c == 3 ==> cb == 3u32 << 26)) by (bit_vector)
                requires
                    cb == c << 26,
            ;
            if c == 0 {
                assert(raw_component(raw) is None);
            } else if c == 1 {
                assert(raw_component(raw) == Some("X"@));
                assert(component_bits(Some("X"@)) == Some(1u32 << 26));
            } else if c == 2 {
                assert(raw_component(raw) == Some("Y"@));
            } else {
                assert(raw_component(raw) == Some("Z"@));
            }
        }
        let r2: u32 = n | 0x8000_0000 | idx as u32 | cb;
        assert(flags_to_raw(f) == Some(r2));
        assert(r2 & 0xc200_0000 == 0x8000_0000 && r2 as u16 == idx && (r2 >> 26) & 3 == c
            && r2 & 0x0080_0000 == raw & 0x0080_0000 && r2 & 0x0100_0000 == raw & 0x0100_0000)
            by (bit_vector)
            requires
                r2 == n | 0x8000_0000 | idx as u32 | cb,
                n == (raw & 0x0080_0000) | (raw & 0x0100_0000),
                idx == raw as u16,
                c == (raw >> 26) & 3,
                cb == c << 26,
        ;
    } else {
        assert(flags_to_raw(f) == Some(n));
        assert(n & 0xc200_0000 == 0 && n & 0x0080_0000 == raw & 0x0080_0000 && n & 0x0100_0000
            == raw & 0x0100_0000) by (bit_vector)
            requires
                n == (raw & 0x0080_0000) | (raw & 0x0100_0000),
        ;
    }
}

/// Where an input parameter takes its value from: a node output, with flags.
#[derive(Clone, Debug)]
pub struct ParamSource {
    pub node_index: i16,
    pub output_index: i16,
    pub flags: ParamFlags,
}

impl ParamSource {
    /// Reads a source record: node index, output index and a raw flag word.
    pub fn read(reader: &mut BinaryReader<'_>) -> (r: Result<Self, Error>)
        requires
            old(reader).wf(),
        ensures
            final(reader).wf(),
            final(reader).bytes() == old(reader).bytes(),
            final(reader).order() == old(reader).order(),
            r is Ok <==> old(reader).pos() + 8 <= old(reader).bytes().len(),
            r matches Ok(s) ==> {
                let b = old(reader).bytes();
                let p = old(reader).pos();
                let e = old(reader).order();
                &&& s.node_index == signed16(u16_at(b, p, e) as int)
                &&& s.output_index == signed16(u16_at(b, p + 2, e) as int)
                &&& s.flags.view() == flags_from_raw(u32_at(b, p + 4, e))
                &&& final(reader).pos() == p + 8
            },
            r matches Err(e) ==> e.kind == ErrorKind::UnexpectedEof,
    {
        let node_index = reader.read_i16()?;
        let output_index = reader.read_i16()?;
        let raw = reader.read_u32()?;
        Ok(ParamSource { node_index, output_index, flags: ParamFlags::from_raw(raw) })
    }

    /// A copy of this source.
    pub fn duplicate(&self) -> (r: Self)
        ensures
            r.node_index == self.node_index,
            r.output_index == self.output_index,
            r.flags.view() == self.flags.view(),
    {
        ParamSource { node_index: self.node_index, output_index: self.output_index, flags: self.flags.duplicate() }
    }

    /// Writes the record; with `set_blackboard` the output index is written with its
    /// top bit set. Fails with `InvalidData`, after writing the two indices, when the
    /// flags cannot be encoded.
    pub fn write(&self, writer: &mut AinbWriter, set_blackboard: bool) -> (r: Result<(), Error>)
        requires
            old(writer).wf(),
        ensures
            final(writer).wf(),
            final(writer).pool() == old(writer).pool(),
            ({
                let out_bits: u16 = if set_blackboard {
                    bits16(self.output_index) | 0x8000
                } else {
                    bits16(self.output_index)
                };
                let head = old(writer).bytes() + encode_u16(bits16(self.node_index), Endian::Little)
                    + encode_u16(out_bits, Endian::Little);
                match flags_to_raw(self.flags.view()) {
                    Some(raw) => r is Ok && final(writer).bytes() == head + encode_u32(raw, Endian::Little),
                    None => r is Err && r->Err_0.kind == ErrorKind::InvalidData && final(writer).bytes() == head,
                }
            }),
    {
        writer.write_i16(self.node_index);
        if set_blackboard {
            let bits = crate::binary::from_i16(self.output_index);
            writer.write_u16(bits | 0x8000);
        } else {
            writer.write_i16(self.output_index);
        }
        let raw = self.flags.to_raw()?;
        writer.write_u32(raw);
        Ok(())
    }
}

/// The multi-source records between `offset` and `end_offset`, eight bytes each.
pub open spec fn multi_sources_ok(b: Seq<u8>, offset: int, end_offset: int) -> bool {
    offset <= end_offset && (end_offset - offset) % 8 == 0 && end_offset <= b.len()
}

/// Reads the multi-source section from `offset` to `end_offset`; fails with
/// `InvalidData` when the range is reversed or not a multiple of eight bytes, and with
/// `UnexpectedEof` when it runs past the input.
pub fn read_multi_sources(reader: &mut BinaryReader<'_>, offset: usize, end_offset: usize) -> (r: Result<Vec<ParamSource>, Error>)
    requires
        old(reader).wf(),
    ensures
        final(reader).wf(),
        final(reader).bytes() == old(reader).bytes(),
        final(reader).order() == old(reader).order(),
        r is Ok <==> multi_sources_ok(old(reader).bytes(), offset as int, end_offset as int),
        r is Ok ==> final(reader).pos() == end_offset,
        r matches Ok(v) ==> {
            let b = old(reader).bytes();
            let e = old(reader).order();
            &&& v@.len() == (end_offset - offset) / 8
            &&& forall|k: int|
                0 <= k < v@.len() ==> {
                    let p = offset + 8 * k;
                    &&& (#[trigger] v@[k]).node_index == signed16(u16_at(b, p, e) as int)
                    &&& v@[k].output_index == signed16(u16_at(b, p + 2, e) as int)
                    &&& v@[k].flags.view() == flags_from_raw(u32_at(b, p + 4, e))
                }
        },
        r matches Err(e) ==> (e.kind == ErrorKind::InvalidData <==> !(offset <= end_offset && (end_offset - offset) % 8 == 0)),
        r matches Err(e) ==> e.kind == ErrorKind::InvalidData || e.kind == ErrorKind::UnexpectedEof,
{
    if offset > end_offset || (end_offset - offset) % 8 != 0 {
        return Err(invalid("invalid multi-source section bounds"));
    }
    reader.seek(offset)?;
    let count = (end_offset - offset) / 8;
    let ghost b = reader.bytes();
    let ghost e = reader.order();
    let mut out: Vec<ParamSource> = Vec::new();
    let mut k: usize = 0;
    while k < count
        invariant
            reader.wf(),
            reader.bytes() == b,
            reader.order() == e,
            b == old(reader).bytes(),
            e == old(reader).order(),
            offset <= end_offset,
            (end_offset - offset) % 8 == 0,
            count == (end_offset - offset) / 8,
            k <= count,
            reader.pos() == offset + 8 * k,
            out@.len() == k,
            forall|j: int|
                0 <= j < k ==> {
                    let p = offset + 8 * j;
                    &&& (#[trigger] out@[j]).node_index == signed16(u16_at(b, p, e) as int)
                    &&& out@[j].output_index == signed16(u16_at(b, p + 2, e) as int)
                    &&& out@[j].flags.view() == flags_from_raw(u32_at(b, p + 4, e))
                },
        decreases count - k,
    {
        let s = ParamSource::read(reader)?;
        out.push(s);
        k = k + 1;
    }
    assert(offset + 8 * count == end_offset) by (nonlinear_arith)
        requires
            offset <= end_offset,
            (end_offset - offset) % 8 == 0,
            count == (end_offset - offset) / 8,
    ;
    Ok(out)
}

/// An output parameter of a node.
#[derive(Clone, Debug)]
pub struct OutputParam {
    pub name: String,
    pub classname: Option<String>,
    pub is_output: bool,
}

impl OutputParam {
    /// Reads an output record: a word holding the name offset in its low 30 bits and
    /// the output flag in its top bit, then, for a pointer, the class name offset.
    pub fn read(reader: &mut BinaryReader<'_>, pool: usize, kind: ParamType) -> (r: Result<Self, Error>)
        requires
            old(reader).wf(),
        ensures
            final(reader).wf(),
            final(reader).bytes() == old(reader).bytes(),
            final(reader).order() == old(reader).order(),
            ({
                let b = old(reader).bytes();
                let p = old(reader).pos();
                let e = old(reader).order();
                let flags = u32_at(b, p, e);
                let name = c_string_at(b, pool + (flags & 0x3fff_ffff));
                let class = c_string_at(b, pool + u32_at(b, p + 4, e));
                &&& r is Ok <==> p + 4 <= b.len() && name is Some && (kind == ParamType::Pointer ==> p + 8 <= b.len() && class is Some)
                &&& r matches Ok(o) ==> {
                    &&& o.name@ == name->Some_0
                    &&& final(reader).pos() == p + (if kind == ParamType::Pointer { 8int } else { 4int })
                    &&& o.is_output == (flags >> 31 != 0)
                    &&& (kind == ParamType::Pointer ==> (o.classname matches Some(c) && c@ == class->Some_0))
                    &&& (kind != ParamType::Pointer ==> o.classname is None)
                }
            }),
            r matches Err(e) ==> e.kind == ErrorKind::UnexpectedEof || e.kind == ErrorKind::InvalidData,
    {
        let flags = reader.read_u32()?;
        let name = read_pool_string(reader, pool, flags & 0x3fff_ffff)?;
        let classname = if kind == ParamType::Pointer {
            Some(crate::ainb::node::read_string(reader, pool)?)
        } else {
            None
        };
        Ok(OutputParam { name, classname, is_output: flags >> 31 != 0 })
    }

    /// Writes the record: the name's pool offset with the top bit set for an output,
    /// then, for a pointer, the class name's pool offset. Fails with `InvalidData`,
    /// after the first word, when a pointer output has no class name.
    pub fn write(&self, writer: &mut AinbWriter, kind: ParamType) -> (r: Result<(), Error>)
        requires
            old(writer).wf(),
            pool_fits(pool_step(old(writer).pool(), self.name@)),
            kind == ParamType::Pointer && self.classname is Some ==> pool_fits(pool_step(pool_step(old(writer).pool(), self.name@), self.classname->Some_0@)),
        ensures
            final(writer).wf(),
            ({
                let p1 = pool_step(old(writer).pool(), self.name@);
                let off = p1.0[self.name@];
                let word = if self.is_output { off | 0x8000_0000 } else { off };
                let head = old(writer).bytes() + encode_u32(word, Endian::Little);
                if kind != ParamType::Pointer {
                    r is Ok && final(writer).pool() == p1 && final(writer).bytes() == head
                } else {
                    match self.classname {
                        None => r is Err && r->Err_0.kind == ErrorKind::InvalidData && final(writer).pool() == p1 && final(writer).bytes() == head,
                        Some(c) => {
                            let p2 = pool_step(p1, c@);
                            r is Ok && final(writer).pool() == p2 && final(writer).bytes() == head + encode_u32(p2.0[c@], Endian::Little)
                        },
                    }
                }
            }),
    {
        let mut offset = writer.add_string(self.name.as_str());
        if self.is_output {
            offset = offset | 0x8000_0000;
        }
        writer.write_u32(offset);
        if kind == ParamType::Pointer {
            match &self.classname {
                Some(c) => writer.write_string_offset(c.as_str()),
                None => {
                    return Err(invalid("pointer output has no Classname"));
                },
            }
        }
        Ok(())
    }
}

} // verus!
