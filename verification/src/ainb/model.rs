use vstd::prelude::*;
use crate::ainb::common::{pool_fits, pool_step, AinbWriter};
use crate::binary::{bits16, encode_u16, encode_u32, Endian};
use crate::error::{invalid, Error, ErrorKind};
use crate::text::str_eq;

verus! {

/// An action bound to an action slot.
#[derive(Clone, Debug)]
pub struct Action {
    pub action_slot: String,
    pub action: String,
}

/// A module a graph uses, with the number of its instances.
#[derive(Clone, Debug)]
pub struct Module {
    pub path: String,
    pub category: String,
    pub instance_count: u32,
}

impl Module {
    /// Writes the path and category as string-pool offsets, then the instance count.
    pub fn write(&self, writer: &mut AinbWriter)
        requires
            old(writer).wf(),
            pool_fits(pool_step(pool_step(old(writer).pool(), self.path@), self.category@)),
        ensures
            final(writer).wf(),
            final(writer).pool() == pool_step(pool_step(old(writer).pool(), self.path@), self.category@),
            final(writer).bytes() == old(writer).bytes() + encode_u32(final(writer).offsets()[self.path@], Endian::Little)
                + encode_u32(final(writer).offsets()[self.category@], Endian::Little) + encode_u32(
                self.instance_count,
                Endian::Little,
            ),
    {
        proof {
            lemma_pool_step_monotone(old(writer).pool(), self.path@, self.category@);
        }
        writer.write_string_offset(self.path.as_str());
        writer.write_string_offset(self.category.as_str());
        writer.write_u32(self.instance_count);
    }
}

/// Adding a string never shrinks the pool.
proof fn lemma_pool_step_monotone(p: (Map<Seq<char>, u32>, Seq<Seq<char>>, int), a: Seq<char>, b: Seq<char>)
    ensures
        pool_step(p, a).2 <= pool_step(pool_step(p, a), b).2,
{
}

/// What a replacement entry does.
#[derive(Clone, Copy, Debug, PartialEq, Eq, Structural)]
pub enum ReplacementType {
    RemoveChild,
    ReplaceChild,
    RemoveAttachment,
}

/// The number that stands for each replacement type.
pub open spec fn replacement_code(t: ReplacementType) -> u8 {
    match t {
        ReplacementType::RemoveChild => 0,
        ReplacementType::ReplaceChild => 1,
        ReplacementType::RemoveAttachment => 2,
    }
}

/// The name of each replacement type.
pub open spec fn replacement_name(t: ReplacementType) -> Seq<char> {
    match t {
        ReplacementType::RemoveChild => "RemoveChild"@,
        ReplacementType::ReplaceChild => "ReplaceChild"@,
        ReplacementType::RemoveAttachment => "RemoveAttachment"@,
    }
}

impl ReplacementType {
    /// The type numbered `value`; fails with `InvalidData` for numbers above 2.
    pub fn from_raw(value: u8) -> (r: Result<Self, Error>)
        ensures
            r is Ok <==> value <= 2,
            r matches Ok(t) ==> replacement_code(t) == value,
            r matches Err(e) ==> e.kind == ErrorKind::InvalidData,
    {
        match value {
            0 => Ok(ReplacementType::RemoveChild),
            1 => Ok(ReplacementType::ReplaceChild),
            2 => Ok(ReplacementType::RemoveAttachment),
            _ => Err(invalid("unknown replacement type")),
        }
    }

    /// The number of this type.
    pub fn to_raw(self) -> (v: u8)
        ensures
            v == replacement_code(self),
    {
        match self {
            ReplacementType::RemoveChild => 0,
            ReplacementType::ReplaceChild => 1,
            ReplacementType::RemoveAttachment => 2,
        }
    }
}

/// The numbers and names of the replacement types: 0 removes a child, 1 replaces a
/// child, 2 removes an attachment.
pub proof fn lemma_replacement_numbers()
    ensures
        replacement_code(ReplacementType::RemoveChild) == 0u8,
        replacement_code(ReplacementType::ReplaceChild) == 1u8,
        replacement_code(ReplacementType::RemoveAttachment) == 2u8,
        replacement_name(ReplacementType::RemoveChild) == "RemoveChild"@,
        replacement_name(ReplacementType::ReplaceChild) == "ReplaceChild"@,
        replacement_name(ReplacementType::RemoveAttachment) == "RemoveAttachment"@,
{
}

/// Reading back a replacement type's number gives the type.
pub proof fn lemma_replacement_code_roundtrip(t: ReplacementType, u: ReplacementType)
    ensures
        replacement_code(t) == replacement_code(u) ==> t == u,
        replacement_code(t) <= 2,
{
}

/// An entry of the replacement table: a child or attachment removal or replacement.
#[derive(Clone, Debug)]
pub struct Replacement {
    pub replacement_type: String,
    pub node_index: i16,
    pub child_plug_index: Option<i16>,
    pub attachment_index: Option<i16>,
    pub replacement_node_index: Option<i16>,
}

/// The replacement type named `name`, if any.
pub open spec fn replacement_from_name(name: Seq<char>) -> Option<ReplacementType> {
    if name == "RemoveChild"@ {
        Some(ReplacementType::RemoveChild)
    } else if name == "ReplaceChild"@ {
        Some(ReplacementType::ReplaceChild)
    } else if name == "RemoveAttachment"@ {
        Some(ReplacementType::RemoveAttachment)
    } else {
        None
    }
}

impl Replacement {
    /// The replacement's type, from its name; fails with `InvalidData` for an unknown name.
    pub fn kind(&self) -> (r: Result<ReplacementType, Error>)
        ensures
            r is Ok <==> replacement_from_name(self.replacement_type@) is Some,
            r matches Ok(t) ==> replacement_from_name(self.replacement_type@) == Some(t),
            r matches Err(e) ==> e.kind == ErrorKind::InvalidData,
    {
        let name = self.replacement_type.as_str();
        if str_eq(name, "RemoveChild") {
            Ok(ReplacementType::RemoveChild)
        } else if str_eq(name, "ReplaceChild") {
            Ok(ReplacementType::ReplaceChild)
        } else if str_eq(name, "RemoveAttachment") {
            Ok(ReplacementType::RemoveAttachment)
        } else {
            Err(invalid("unknown replacement type"))
        }
    }

    /// The index written second: the attachment index for an attachment removal,
    /// else the child plug index.
    pub open spec fn target_index(&self, t: ReplacementType) -> Option<i16> {
        match t {
            ReplacementType::RemoveAttachment => self.attachment_index,
            _ => self.child_plug_index,
        }
    }

    /// Writes the entry with no fallback for the replacement node index.
    pub fn write(&self, writer: &mut AinbWriter) -> (r: Result<(), Error>)
        requires
            old(writer).wf(),
        ensures
            final(writer).wf(),
            final(writer).pool() == old(writer).pool(),
            self.write_result(r, old(writer).bytes(), final(writer).bytes(), None),
    {
        self.write_with_raw_new_index(writer, None)
    }

    /// What writing the entry gives: an unknown type name fails with `InvalidData`
    /// and writes nothing; a missing index fails with `InvalidData` after the type,
    /// a zero byte and the node index; otherwise the type, a zero byte, the node
    /// index, the target index and the replacement node index (the fallback when it
    /// is missing, -1 when both are), little-endian.
    pub open spec fn write_result(&self, r: Result<(), Error>, before: Seq<u8>, after: Seq<u8>, raw: Option<i16>) -> bool {
        match replacement_from_name(self.replacement_type@) {
            None => r is Err && r->Err_0.kind == ErrorKind::InvalidData && after == before,
            Some(t) => {
                let head = before + seq![replacement_code(t), 0u8] + encode_u16(bits16(self.node_index), Endian::Little);
                match self.target_index(t) {
                    None => r is Err && r->Err_0.kind == ErrorKind::InvalidData && after == head,
                    Some(idx) => {
                        let last: i16 = match self.replacement_node_index {
                            Some(v) => v,
                            None => match raw {
                                Some(v) => v,
                                None => -1i16,
                            },
                        };
                        r is Ok && after == head + encode_u16(bits16(idx), Endian::Little) + encode_u16(bits16(last), Endian::Little)
                    },
                }
            },
        }
    }

    /// Writes the entry, using `raw_new_index` when it has no replacement node index.
    pub fn write_with_raw_new_index(&self, writer: &mut AinbWriter, raw_new_index: Option<i16>) -> (r: Result<(), Error>)
        requires
            old(writer).wf(),
        ensures
            final(writer).wf(),
            final(writer).pool() == old(writer).pool(),
            self.write_result(r, old(writer).bytes(), final(writer).bytes(), raw_new_index),
    {
        let kind = self.kind()?;
        writer.write_u8(kind.to_raw());
        writer.write_u8(0);
        writer.write_i16(self.node_index);
        let target = match kind {
            ReplacementType::RemoveAttachment => self.attachment_index,
            _ => self.child_plug_index,
        };
        let index = match target {
            Some(i) => i,
            None => {
                assert(writer.bytes() =~= old(writer).bytes() + seq![replacement_code(kind), 0u8] + encode_u16(bits16(self.node_index), Endian::Little));
                return Err(invalid("missing replacement index"));
            },
        };
        writer.write_i16(index);
        let last = match self.replacement_node_index {
            Some(v) => v,
            None => match raw_new_index {
                Some(v) => v,
                None => -1,
            },
        };
        writer.write_i16(last);
        assert(writer.bytes() =~= old(writer).bytes() + seq![replacement_code(kind), 0u8] + encode_u16(bits16(self.node_index), Endian::Little)
            + encode_u16(bits16(index), Endian::Little) + encode_u16(bits16(last), Endian::Little));
        Ok(())
    }
}

/// The unknown table at header offset 0x58: a description and three words.
#[derive(Clone, Debug)]
pub struct UnknownSection58 {
    pub description: String,
    pub unknown04: u32,
    pub unknown08: u32,
    pub unknown0c: u32,
}

} // verus!
