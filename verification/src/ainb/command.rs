use vstd::prelude::*;
use crate::ainb::node::{ainb_guid_text, read_guid, read_pool_string};
use crate::binary::{c_string_at, u16_at, u32_at, BinaryReader};
use crate::error::{Error, ErrorKind};

verus! {

/// An AINB command: a named entry point of the graph.
#[derive(Clone, Debug)]
pub struct AinbCommand {
    pub name: String,
    pub guid: String,
    pub root_node_index: u16,
    pub secondary_root_node_index: Option<u16>,
}

impl AinbCommand {
    /// Reads a command record: a name offset into the string pool at
    /// `string_pool_offset`, a GUID, the root node index and the secondary root node
    /// index plus one (zero for none).
    pub fn read(reader: &mut BinaryReader<'_>, string_pool_offset: usize) -> (r: Result<Self, Error>)
        requires
            old(reader).wf(),
        ensures
            final(reader).wf(),
            final(reader).bytes() == old(reader).bytes(),
            final(reader).order() == old(reader).order(),
            ({
                let b = old(reader).bytes();
                let p = old(reader).pos();
                let e = old(reader).order();
                let name = c_string_at(b, string_pool_offset + u32_at(b, p, e));
                &&& r is Ok <==> p + 24 <= b.len() && name is Some
                &&& r matches Ok(c) ==> {
                    &&& c.name@ == name->Some_0
                    &&& c.guid@ == ainb_guid_text(b, p + 4, e)
                    &&& c.root_node_index == u16_at(b, p + 20, e)
                    &&& c.secondary_root_node_index == (if u16_at(b, p + 22, e) == 0 {
                        None
                    } else {
                        Some((u16_at(b, p + 22, e) - 1) as u16)
                    })
                    &&& final(reader).pos() == p + 24
                }
            }),
            r matches Err(e) ==> e.kind == ErrorKind::UnexpectedEof || e.kind == ErrorKind::InvalidData,
    {
        let name_offset = reader.read_u32()?;
        let guid = read_guid(reader)?;
        let root_node_index = reader.read_u16()?;
        let secondary = reader.read_u16()?;
        let name = read_pool_string(reader, string_pool_offset, name_offset)?;
        Ok(AinbCommand {
            name,
            guid,
            root_node_index,
            secondary_root_node_index: secondary.checked_sub(1),
        })
    }
}

} // verus!
