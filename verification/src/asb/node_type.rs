use vstd::prelude::*;
use crate::error::{invalid, Error, ErrorKind};
use crate::text::str_eq;

verus! {

/// The kind of an ASB animation node.
#[derive(Clone, Copy, Debug, PartialEq, Eq, Structural)]
pub enum NodeType {
    FloatSelector,
    StringSelector,
    SkeletalAnimation,
    State,
    Unknown2,
    OneDimensionalBlender,
    Sequential,
    IntSelector,
    Simultaneous,
    Event,
    MaterialAnimation,
    FrameController,
    DummyAnimation,
    RandomSelector,
    Unknown4,
    PreviousTagSelector,
    BonePositionSelector,
    BoneAnimation,
    InitialFrame,
    BoneBlender,
    BoolSelector,
    Alert,
    SubtractAnimation,
    ShapeAnimation,
    Unknown7,
}

/// The number that stands for each NodeType in a file.
pub open spec fn node_type_code(t: NodeType) -> u16 {
    match t {
        NodeType::FloatSelector => 1,
        NodeType::StringSelector => 2,
        NodeType::SkeletalAnimation => 3,
        NodeType::State => 4,
        NodeType::Unknown2 => 5,
        NodeType::OneDimensionalBlender => 6,
        NodeType::Sequential => 7,
        NodeType::IntSelector => 8,
        NodeType::Simultaneous => 9,
        NodeType::Event => 10,
        NodeType::MaterialAnimation => 11,
        NodeType::FrameController => 12,
        NodeType::DummyAnimation => 13,
        NodeType::RandomSelector => 14,
        NodeType::Unknown4 => 15,
        NodeType::PreviousTagSelector => 16,
        NodeType::BonePositionSelector => 17,
        NodeType::BoneAnimation => 18,
        NodeType::InitialFrame => 19,
        NodeType::BoneBlender => 20,
        NodeType::BoolSelector => 21,
        NodeType::Alert => 22,
        NodeType::SubtractAnimation => 23,
        NodeType::ShapeAnimation => 24,
        NodeType::Unknown7 => 25,
    }
}

/// The NodeType that a number stands for, if any.
pub open spec fn node_type_from_code(v: u16) -> Option<NodeType> {
    if v == 1 {
        Some(NodeType::FloatSelector)
    } else if v == 2 {
        Some(NodeType::StringSelector)
    } else if v == 3 {
        Some(NodeType::SkeletalAnimation)
    } else if v == 4 {
        Some(NodeType::State)
    } else if v == 5 {
        Some(NodeType::Unknown2)
    } else if v == 6 {
        Some(NodeType::OneDimensionalBlender)
    } else if v == 7 {
        Some(NodeType::Sequential)
    } else if v == 8 {
        Some(NodeType::IntSelector)
    } else if v == 9 {
        Some(NodeType::Simultaneous)
    } else if v == 10 {
        Some(NodeType::Event)
    } else if v == 11 {
        Some(NodeType::MaterialAnimation)
    } else if v == 12 {
        Some(NodeType::FrameController)
    } else if v == 13 {
        Some(NodeType::DummyAnimation)
    } else if v == 14 {
        Some(NodeType::RandomSelector)
    } else if v == 15 {
        Some(NodeType::Unknown4)
    } else if v == 16 {
        Some(NodeType::PreviousTagSelector)
    } else if v == 17 {
        Some(NodeType::BonePositionSelector)
    } else if v == 18 {
        Some(NodeType::BoneAnimation)
    } else if v == 19 {
        Some(NodeType::InitialFrame)
    } else if v == 20 {
        Some(NodeType::BoneBlender)
    } else if v == 21 {
        Some(NodeType::BoolSelector)
    } else if v == 22 {
        Some(NodeType::Alert)
    } else if v == 23 {
        Some(NodeType::SubtractAnimation)
    } else if v == 24 {
        Some(NodeType::ShapeAnimation)
    } else if v == 25 {
        Some(NodeType::Unknown7)
    } else {
        None
    }
}

/// Decoding a NodeType's number gives it back, and a number that decodes gives
/// a NodeType whose number it is.
pub proof fn lemma_node_type_code_roundtrip(t: NodeType, v: u16)
    ensures
        node_type_from_code(node_type_code(t)) == Some(t),
        node_type_from_code(v) matches Some(u) ==> node_type_code(u) == v,
{
}

/// The name of each node type.
pub open spec fn node_type_name(t: NodeType) -> Seq<char> {
    match t {
        NodeType::FloatSelector => "FloatSelector"@,
        NodeType::StringSelector => "StringSelector"@,
        NodeType::SkeletalAnimation => "SkeletalAnimation"@,
        NodeType::State => "State"@,
        NodeType::Unknown2 => "Unknown2"@,
        NodeType::OneDimensionalBlender => "OneDimensionalBlender"@,
        NodeType::Sequential => "Sequential"@,
        NodeType::IntSelector => "IntSelector"@,
        NodeType::Simultaneous => "Simultaneous"@,
        NodeType::Event => "Event"@,
        NodeType::MaterialAnimation => "MaterialAnimation"@,
        NodeType::FrameController => "FrameController"@,
        NodeType::DummyAnimation => "DummyAnimation"@,
        NodeType::RandomSelector => "RandomSelector"@,
        NodeType::Unknown4 => "Unknown4"@,
        NodeType::PreviousTagSelector => "PreviousTagSelector"@,
        NodeType::BonePositionSelector => "BonePositionSelector"@,
        NodeType::BoneAnimation => "BoneAnimation"@,
        NodeType::InitialFrame => "InitialFrame"@,
        NodeType::BoneBlender => "BoneBlender"@,
        NodeType::BoolSelector => "BoolSelector"@,
        NodeType::Alert => "Alert"@,
        NodeType::SubtractAnimation => "SubtractAnimation"@,
        NodeType::ShapeAnimation => "ShapeAnimation"@,
        NodeType::Unknown7 => "Unknown7"@,
    }
}

/// No two node types share a name, so the name of a node type is what `from_name`
/// turns back into it.
pub proof fn lemma_node_type_names_distinct(t1: NodeType, t2: NodeType)
    ensures
        node_type_name(t1) == node_type_name(t2) ==> t1 == t2,
{
    reveal_strlit("FloatSelector");
    reveal_strlit("StringSelector");
    reveal_strlit("SkeletalAnimation");
    reveal_strlit("State");
    reveal_strlit("Unknown2");
    reveal_strlit("OneDimensionalBlender");
    reveal_strlit("Sequential");
    reveal_strlit("IntSelector");
    reveal_strlit("Simultaneous");
    reveal_strlit("Event");
    reveal_strlit("MaterialAnimation");
    reveal_strlit("FrameController");
    reveal_strlit("DummyAnimation");
    reveal_strlit("RandomSelector");
    reveal_strlit("Unknown4");
    reveal_strlit("PreviousTagSelector");
    reveal_strlit("BonePositionSelector");
    reveal_strlit("BoneAnimation");
    reveal_strlit("InitialFrame");
    reveal_strlit("BoneBlender");
    reveal_strlit("BoolSelector");
    reveal_strlit("Alert");
    reveal_strlit("SubtractAnimation");
    reveal_strlit("ShapeAnimation");
    reveal_strlit("Unknown7");
    if node_type_name(t1) == node_type_name(t2) && t1 != t2 {
        let a = node_type_name(t1);
        let b = node_type_name(t2);
        assert(a.len() == b.len());
        assert(a[0] == b[0] && a[a.len() - 1] == b[b.len() - 1] && a[1] == b[1] && a[2] == b[2]);
    }
}

/// The numbers the ASB format gives its node kinds, 1 to 25 in the order the kinds
/// are declared (1 float selector, 2 string selector, 3 skeletal animation, 4 state, ...,
/// 25 the seventh unknown kind); every number from 1 to 25 decodes, and no other.
pub proof fn lemma_node_type_numbers(v: u16)
    ensures
        node_type_code(NodeType::FloatSelector) == 1u16,
        node_type_code(NodeType::StringSelector) == 2u16,
        node_type_code(NodeType::SkeletalAnimation) == 3u16,
        node_type_code(NodeType::State) == 4u16,
        node_type_code(NodeType::Unknown2) == 5u16,
        node_type_code(NodeType::OneDimensionalBlender) == 6u16,
        node_type_code(NodeType::Sequential) == 7u16,
        node_type_code(NodeType::IntSelector) == 8u16,
        node_type_code(NodeType::Simultaneous) == 9u16,
        node_type_code(NodeType::Event) == 10u16,
        node_type_code(NodeType::MaterialAnimation) == 11u16,
        node_type_code(NodeType::FrameController) == 12u16,
        node_type_code(NodeType::DummyAnimation) == 13u16,
        node_type_code(NodeType::RandomSelector) == 14u16,
        node_type_code(NodeType::Unknown4) == 15u16,
        node_type_code(NodeType::PreviousTagSelector) == 16u16,
        node_type_code(NodeType::BonePositionSelector) == 17u16,
        node_type_code(NodeType::BoneAnimation) == 18u16,
        node_type_code(NodeType::InitialFrame) == 19u16,
        node_type_code(NodeType::BoneBlender) == 20u16,
        node_type_code(NodeType::BoolSelector) == 21u16,
        node_type_code(NodeType::Alert) == 22u16,
        node_type_code(NodeType::SubtractAnimation) == 23u16,
        node_type_code(NodeType::ShapeAnimation) == 24u16,
        node_type_code(NodeType::Unknown7) == 25u16,
        node_type_from_code(v) is Some <==> 1 <= v <= 25,
        node_type_from_code(v) matches Some(t) ==> node_type_code(t) == v,
{
}

/// The name the ASB format gives the node kind of each number: 1 is "FloatSelector",
/// 2 "StringSelector", 3 "SkeletalAnimation", 4 "State", and so on to 25, "Unknown7".
pub proof fn lemma_node_type_names()
    ensures
        node_type_from_code(1u16) == Some(NodeType::FloatSelector) && node_type_name(NodeType::FloatSelector) == "FloatSelector"@,
        node_type_from_code(2u16) == Some(NodeType::StringSelector) && node_type_name(NodeType::StringSelector) == "StringSelector"@,
        node_type_from_code(3u16) == Some(NodeType::SkeletalAnimation) && node_type_name(NodeType::SkeletalAnimation) == "SkeletalAnimation"@,
        node_type_from_code(4u16) == Some(NodeType::State) && node_type_name(NodeType::State) == "State"@,
        node_type_from_code(5u16) == Some(NodeType::Unknown2) && node_type_name(NodeType::Unknown2) == "Unknown2"@,
        node_type_from_code(6u16) == Some(NodeType::OneDimensionalBlender) && node_type_name(NodeType::OneDimensionalBlender) == "OneDimensionalBlender"@,
        node_type_from_code(7u16) == Some(NodeType::Sequential) && node_type_name(NodeType::Sequential) == "Sequential"@,
        node_type_from_code(8u16) == Some(NodeType::IntSelector) && node_type_name(NodeType::IntSelector) == "IntSelector"@,
        node_type_from_code(9u16) == Some(NodeType::Simultaneous) && node_type_name(NodeType::Simultaneous) == "Simultaneous"@,
        node_type_from_code(10u16) == Some(NodeType::Event) && node_type_name(NodeType::Event) == "Event"@,
        node_type_from_code(11u16) == Some(NodeType::MaterialAnimation) && node_type_name(NodeType::MaterialAnimation) == "MaterialAnimation"@,
        node_type_from_code(12u16) == Some(NodeType::FrameController) && node_type_name(NodeType::FrameController) == "FrameController"@,
        node_type_from_code(13u16) == Some(NodeType::DummyAnimation) && node_type_name(NodeType::DummyAnimation) == "DummyAnimation"@,
        node_type_from_code(14u16) == Some(NodeType::RandomSelector) && node_type_name(NodeType::RandomSelector) == "RandomSelector"@,
        node_type_from_code(15u16) == Some(NodeType::Unknown4) && node_type_name(NodeType::Unknown4) == "Unknown4"@,
        node_type_from_code(16u16) == Some(NodeType::PreviousTagSelector) && node_type_name(NodeType::PreviousTagSelector) == "PreviousTagSelector"@,
        node_type_from_code(17u16) == Some(NodeType::BonePositionSelector) && node_type_name(NodeType::BonePositionSelector) == "BonePositionSelector"@,
        node_type_from_code(18u16) == Some(NodeType::BoneAnimation) && node_type_name(NodeType::BoneAnimation) == "BoneAnimation"@,
        node_type_from_code(19u16) == Some(NodeType::InitialFrame) && node_type_name(NodeType::InitialFrame) == "InitialFrame"@,
        node_type_from_code(20u16) == Some(NodeType::BoneBlender) && node_type_name(NodeType::BoneBlender) == "BoneBlender"@,
        node_type_from_code(21u16) == Some(NodeType::BoolSelector) && node_type_name(NodeType::BoolSelector) == "BoolSelector"@,
        node_type_from_code(22u16) == Some(NodeType::Alert) && node_type_name(NodeType::Alert) == "Alert"@,
        node_type_from_code(23u16) == Some(NodeType::SubtractAnimation) && node_type_name(NodeType::SubtractAnimation) == "SubtractAnimation"@,
        node_type_from_code(24u16) == Some(NodeType::ShapeAnimation) && node_type_name(NodeType::ShapeAnimation) == "ShapeAnimation"@,
        node_type_from_code(25u16) == Some(NodeType::Unknown7) && node_type_name(NodeType::Unknown7) == "Unknown7"@,
{
    reveal_strlit("FloatSelector");
    reveal_strlit("StringSelector");
    reveal_strlit("SkeletalAnimation");
    reveal_strlit("State");
    reveal_strlit("Unknown2");
    reveal_strlit("OneDimensionalBlender");
    reveal_strlit("Sequential");
    reveal_strlit("IntSelector");
    reveal_strlit("Simultaneous");
    reveal_strlit("Event");
    reveal_strlit("MaterialAnimation");
    reveal_strlit("FrameController");
    reveal_strlit("DummyAnimation");
    reveal_strlit("RandomSelector");
    reveal_strlit("Unknown4");
    reveal_strlit("PreviousTagSelector");
    reveal_strlit("BonePositionSelector");
    reveal_strlit("BoneAnimation");
    reveal_strlit("InitialFrame");
    reveal_strlit("BoneBlender");
    reveal_strlit("BoolSelector");
    reveal_strlit("Alert");
    reveal_strlit("SubtractAnimation");
    reveal_strlit("ShapeAnimation");
    reveal_strlit("Unknown7");
}

impl NodeType {
    /// The NodeType that `value` stands for; fails with `InvalidData` for any other number.
    pub fn from_u16(value: u16) -> (r: Result<Self, Error>)
        ensures
            r is Ok <==> node_type_from_code(value) is Some,
            r matches Ok(t) ==> node_type_from_code(value) == Some(t),
            r matches Err(e) ==> e.kind == ErrorKind::InvalidData,
    {
        match value {
            1 => Ok(NodeType::FloatSelector),
            2 => Ok(NodeType::StringSelector),
            3 => Ok(NodeType::SkeletalAnimation),
            4 => Ok(NodeType::State),
            5 => Ok(NodeType::Unknown2),
            6 => Ok(NodeType::OneDimensionalBlender),
            7 => Ok(NodeType::Sequential),
            8 => Ok(NodeType::IntSelector),
            9 => Ok(NodeType::Simultaneous),
            10 => Ok(NodeType::Event),
            11 => Ok(NodeType::MaterialAnimation),
            12 => Ok(NodeType::FrameController),
            13 => Ok(NodeType::DummyAnimation),
            14 => Ok(NodeType::RandomSelector),
            15 => Ok(NodeType::Unknown4),
            16 => Ok(NodeType::PreviousTagSelector),
            17 => Ok(NodeType::BonePositionSelector),
            18 => Ok(NodeType::BoneAnimation),
            19 => Ok(NodeType::InitialFrame),
            20 => Ok(NodeType::BoneBlender),
            21 => Ok(NodeType::BoolSelector),
            22 => Ok(NodeType::Alert),
            23 => Ok(NodeType::SubtractAnimation),
            24 => Ok(NodeType::ShapeAnimation),
            25 => Ok(NodeType::Unknown7),
            _ => Err(invalid("invalid ASB node type")),
        }
    }

    /// The number that stands for this NodeType.
    pub fn as_u16(self) -> (v: u16)
        ensures
            v == node_type_code(self),
    {
        match self {
            NodeType::FloatSelector => 1,
            NodeType::StringSelector => 2,
            NodeType::SkeletalAnimation => 3,
            NodeType::State => 4,
            NodeType::Unknown2 => 5,
            NodeType::OneDimensionalBlender => 6,
            NodeType::Sequential => 7,
            NodeType::IntSelector => 8,
            NodeType::Simultaneous => 9,
            NodeType::Event => 10,
            NodeType::MaterialAnimation => 11,
            NodeType::FrameController => 12,
            NodeType::DummyAnimation => 13,
            NodeType::RandomSelector => 14,
            NodeType::Unknown4 => 15,
            NodeType::PreviousTagSelector => 16,
            NodeType::BonePositionSelector => 17,
            NodeType::BoneAnimation => 18,
            NodeType::InitialFrame => 19,
            NodeType::BoneBlender => 20,
            NodeType::BoolSelector => 21,
            NodeType::Alert => 22,
            NodeType::SubtractAnimation => 23,
            NodeType::ShapeAnimation => 24,
            NodeType::Unknown7 => 25,
        }
    }

    /// The name of this node type.
    pub fn name(self) -> (s: &'static str)
        ensures
            s@ == node_type_name(self),
    {
        match self {
            NodeType::FloatSelector => "FloatSelector",
            NodeType::StringSelector => "StringSelector",
            NodeType::SkeletalAnimation => "SkeletalAnimation",
            NodeType::State => "State",
            NodeType::Unknown2 => "Unknown2",
            NodeType::OneDimensionalBlender => "OneDimensionalBlender",
            NodeType::Sequential => "Sequential",
            NodeType::IntSelector => "IntSelector",
            NodeType::Simultaneous => "Simultaneous",
            NodeType::Event => "Event",
            NodeType::MaterialAnimation => "MaterialAnimation",
            NodeType::FrameController => "FrameController",
            NodeType::DummyAnimation => "DummyAnimation",
            NodeType::RandomSelector => "RandomSelector",
            NodeType::Unknown4 => "Unknown4",
            NodeType::PreviousTagSelector => "PreviousTagSelector",
            NodeType::BonePositionSelector => "BonePositionSelector",
            NodeType::BoneAnimation => "BoneAnimation",
            NodeType::InitialFrame => "InitialFrame",
            NodeType::BoneBlender => "BoneBlender",
            NodeType::BoolSelector => "BoolSelector",
            NodeType::Alert => "Alert",
            NodeType::SubtractAnimation => "SubtractAnimation",
            NodeType::ShapeAnimation => "ShapeAnimation",
            NodeType::Unknown7 => "Unknown7",
        }
    }

    /// The node type whose name is `name`; fails with `InvalidData` when no node type
    /// has that name.
    pub fn from_name(name: &str) -> (r: Result<Self, Error>)
        ensures
            r is Ok <==> exists|t: NodeType| node_type_name(t) == name@,
            r matches Ok(t) ==> node_type_name(t) == name@,
            forall|t: NodeType| #[trigger] node_type_name(t) == name@ ==> (r matches Ok(u) && u == t),
            r matches Err(e) ==> e.kind == ErrorKind::InvalidData,
    {
        proof {
            assert forall|t1: NodeType, t2: NodeType|
                node_type_name(t1) == node_type_name(t2) implies t1 == t2 by {
                lemma_node_type_names_distinct(t1, t2);
            }
        }
        let mut value: u16 = 1;
        while value <= 25
            invariant
                1 <= value <= 26,
                forall|v: u16| 1 <= v < value ==> node_type_name(node_type_from_code(v)->Some_0) != name@,
                forall|t1: NodeType, t2: NodeType|
                    node_type_name(t1) == node_type_name(t2) ==> t1 == t2,
            decreases 26 - value,
        {
            let kind = match NodeType::from_u16(value) {
                Ok(k) => k,
                Err(e) => return Err(e),
            };
            if str_eq(kind.name(), name) {
                return Ok(kind);
            }
            value = value + 1;
        }
        proof {
            assert forall|t: NodeType| node_type_name(t) != name@ by {
                lemma_node_type_code_roundtrip(t, 0);
                assert(1 <= node_type_code(t) <= 25);
            }
        }
        Err(invalid("invalid ASB node type"))
    }
}

} // verus!
