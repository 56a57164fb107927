use vstd::prelude::*;
use crate::asb::node_tables::{asb_guid_text, guid, read_tags, tag_offset, tags_readable};
use crate::asb::parameter::{parameter_matches, read_parameter, AsbParameter, ParameterType};
use crate::binary::{c_string_at, u16_at, u32_at, BinaryReader, Endian};
use crate::error::{Error, ErrorKind};

verus! {

/// A command of an ASB file: its name and tags, two parameters, a number, its GUID,
/// and the nodes it joins (the right one stored plus one, so that `-1` is none).
#[derive(Clone, Debug)]
pub struct AsbCommand {
    pub name: String,
    pub tags: Option<Vec<String>>,
    pub unknown_1: AsbParameter,
    pub unknown_2: AsbParameter,
    pub unknown_3: u32,
    pub guid: String,
    pub left_node_index: u16,
    pub right_node_index: i32,
}

/// Where the parameters of the command record at `p` start: after the name offset,
/// and in version 0x417 after the tag list offset too.
pub open spec fn command_body(p: int, version: u32) -> int {
    if version == 0x417 {
        p + 8
    } else {
        p + 4
    }
}

/// Whether the command record at `p` can be read: a name in the pool, in version
/// 0x417 a tag list that is absent or readable, and the forty bytes of the rest.
pub open spec fn command_readable(b: Seq<u8>, pool: Seq<u8>, p: int, e: Endian, version: u32) -> bool {
    let q = command_body(p, version);
    let t = u32_at(b, p + 4, e) as int;
    &&& p + 4 <= b.len()
    &&& c_string_at(pool, u32_at(b, p, e) as int) is Some
    &&& version == 0x417 && p + 8 <= b.len() && t != 0 ==> t + 4 <= b.len() && tags_readable(
        b,
        pool,
        t,
        u32_at(b, t, e) as int,
        e,
    )
    &&& q + 40 <= b.len()
}

/// Whether `c` is the command record at `p`.
pub open spec fn command_matches(c: AsbCommand, b: Seq<u8>, pool: Seq<u8>, p: int, e: Endian, version: u32) -> bool {
    let q = command_body(p, version);
    let t = u32_at(b, p + 4, e) as int;
    &&& c.name@ == c_string_at(pool, u32_at(b, p, e) as int)->Some_0
    &&& if version == 0x417 && t != 0 {
        c.tags matches Some(v) && v@.len() == u32_at(b, t, e) && forall|k: int|
            0 <= k < v@.len() ==> (#[trigger] v@[k])@ == c_string_at(pool, tag_offset(b, t, k, e))->Some_0
    } else {
        c.tags is None
    }
    &&& parameter_matches(c.unknown_1, b, pool, q, e, ParameterType::Float)
    &&& parameter_matches(c.unknown_2, b, pool, q + 8, e, ParameterType::Int)
    &&& c.unknown_3 == u32_at(b, q + 16, e)
    &&& c.guid@ == asb_guid_text(b, q + 20, e)
    &&& c.left_node_index == u16_at(b, q + 36, e)
    &&& c.right_node_index == u16_at(b, q + 38, e) - 1
}

impl AsbCommand {
    /// Reads the command record at the cursor, with strings from `pool`; tags are
    /// stored only from version 0x417 on.
    #[verifier::rlimit(40)]
    pub fn read(reader: &mut BinaryReader<'_>, pool: &BinaryReader<'_>, version: u32) -> (r: Result<Self, Error>)
        requires
            old(reader).wf(),
        ensures
            final(reader).wf(),
            final(reader).bytes() == old(reader).bytes(),
            final(reader).order() == old(reader).order(),
            r is Ok <==> command_readable(old(reader).bytes(), pool.bytes(), old(reader).pos(), old(reader).order(), version),
            r matches Ok(c) ==> command_matches(c, old(reader).bytes(), pool.bytes(), old(reader).pos(), old(reader).order(), version)
                && final(reader).pos() == command_body(old(reader).pos(), version) + 40,
            r matches Err(e) ==> e.kind == ErrorKind::UnexpectedEof || e.kind == ErrorKind::InvalidData,
    {
        let ghost b = reader.bytes();
        let ghost p = reader.pos();
        let ghost e = reader.order();
        let name_offset = reader.read_u32()?;
        let name = pool.read_c_string_at(name_offset as usize)?;
        let tags = if version == 0x417 {
            let offset = reader.read_u32()?;
            if offset != 0 {
                let list = read_tags(reader, pool, offset)?;
                Some(list)
            } else {
                None
            }
        } else {
            None
        };
        assert(reader.pos() == command_body(p, version));
        if reader.position() > reader.len() || reader.len() - reader.position() < 40 {
            return Err(crate::error::eof("ASB command is truncated"));
        }
        let unknown_1 = read_parameter(reader, pool, ParameterType::Float)?;
        let unknown_2 = read_parameter(reader, pool, ParameterType::Int)?;
        let unknown_3 = reader.read_u32()?;
        let guid = guid(reader)?;
        let left_node_index = reader.read_u16()?;
        let right = reader.read_u16()?;
        Ok(AsbCommand {
            name,
            tags,
            unknown_1,
            unknown_2,
            unknown_3,
            guid,
            left_node_index,
            right_node_index: right as i32 - 1,
        })
    }
}

} // verus!
