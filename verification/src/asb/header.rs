use vstd::prelude::*;
use crate::binary::{u32_at, BinaryReader, Endian};
use crate::error::{eof, invalid, Error, ErrorKind};

verus! {

/// The fixed header of an ASB file.
#[derive(Clone, Copy, Debug)]
pub struct AsbHeader {
    pub version: u32,
    pub filename_offset: u32,
    pub command_count: u32,
    pub node_count: u32,
    pub event_count: u32,
    pub slot_count: u32,
    pub x38_count: u32,
    pub local_blackboard_offset: u32,
    pub string_pool_offset: u32,
    pub enum_resolve_array_offset: u32,
    pub x2c_offset: u32,
    pub event_offsets_offset: u32,
    pub slots_offset: u32,
    pub x38_offset: u32,
    pub x38_index_offset: u32,
    pub x40_offset: u32,
    pub x40_count: u32,
    pub bone_group_offset: u32,
    pub bone_group_count: u32,
    pub string_pool_size: u32,
    pub transitions_offset: u32,
    pub tag_list_offset: u32,
    pub as_markings_offset: u32,
    pub exb_offset: u32,
    pub command_groups_offset: u32,
    pub x68_offset: Option<u32>,
}

/// The first version that the reader supports.
pub const VERSION_417: u32 = 0x417;

/// The second version that the reader supports.
pub const VERSION_40F: u32 = 0x40f;

/// Whether the four bytes at `p` are the ASB magic `ASB `.
pub open spec fn asb_magic_at(b: Seq<u8>, p: int) -> bool {
    b[p] == 0x41 && b[p + 1] == 0x53 && b[p + 2] == 0x42 && b[p + 3] == 0x20
}

/// The header size of a version: 0x6c for 0x417, which has one more field, else 0x68.
pub open spec fn asb_header_size(version: u32) -> int {
    if version == VERSION_417 {
        0x6c
    } else {
        0x68
    }
}

/// The header whose version field is at `p + 4` of `b`.
pub open spec fn asb_header_at(b: Seq<u8>, p: int, e: Endian) -> AsbHeader {
    let version = u32_at(b, p + 4, e);
    AsbHeader {
        version,
        filename_offset: u32_at(b, p + 8, e),
        command_count: u32_at(b, p + 12, e),
        node_count: u32_at(b, p + 16, e),
        event_count: u32_at(b, p + 20, e),
        slot_count: u32_at(b, p + 24, e),
        x38_count: u32_at(b, p + 28, e),
        local_blackboard_offset: u32_at(b, p + 32, e),
        string_pool_offset: u32_at(b, p + 36, e),
        enum_resolve_array_offset: u32_at(b, p + 40, e),
        x2c_offset: u32_at(b, p + 44, e),
        event_offsets_offset: u32_at(b, p + 48, e),
        slots_offset: u32_at(b, p + 52, e),
        x38_offset: u32_at(b, p + 56, e),
        x38_index_offset: u32_at(b, p + 60, e),
        x40_offset: u32_at(b, p + 64, e),
        x40_count: u32_at(b, p + 68, e),
        bone_group_offset: u32_at(b, p + 72, e),
        bone_group_count: u32_at(b, p + 76, e),
        string_pool_size: u32_at(b, p + 80, e),
        transitions_offset: u32_at(b, p + 84, e),
        tag_list_offset: u32_at(b, p + 88, e),
        as_markings_offset: u32_at(b, p + 92, e),
        exb_offset: u32_at(b, p + 96, e),
        command_groups_offset: u32_at(b, p + 100, e),
        x68_offset: if version == VERSION_417 {
            Some(u32_at(b, p + 104, e))
        } else {
            None
        },
    }
}

/// The error `AsbHeader::read` gives for a header at `p` of `b`, if any.
pub open spec fn asb_header_error(b: Seq<u8>, p: int, e: Endian) -> Option<ErrorKind> {
    if p + 4 > b.len() {
        Some(ErrorKind::UnexpectedEof)
    } else if !asb_magic_at(b, p) {
        Some(ErrorKind::InvalidData)
    } else if p + 8 > b.len() {
        Some(ErrorKind::UnexpectedEof)
    } else if u32_at(b, p + 4, e) != VERSION_417 && u32_at(b, p + 4, e) != VERSION_40F {
        Some(ErrorKind::InvalidData)
    } else if p + asb_header_size(u32_at(b, p + 4, e)) > b.len() {
        Some(ErrorKind::UnexpectedEof)
    } else if p != 0 {
        Some(ErrorKind::InvalidData)
    } else {
        None
    }
}

impl AsbHeader {
    /// Reads the header at the reader's position, which must be the start of the
    /// file: the magic `ASB `, a supported version (0x417 or 0x40f), then the
    /// version's offsets and counts.
    pub fn read(reader: &mut BinaryReader<'_>) -> (r: Result<Self, Error>)
        requires
            old(reader).wf(),
        ensures
            final(reader).wf(),
            final(reader).bytes() == old(reader).bytes(),
            final(reader).order() == old(reader).order(),
            r is Ok <==> asb_header_error(old(reader).bytes(), old(reader).pos(), old(reader).order()) is None,
            r matches Err(err) ==> Some(err.kind) == asb_header_error(old(reader).bytes(), old(reader).pos(), old(reader).order()),
            r matches Ok(h) ==> h == asb_header_at(old(reader).bytes(), old(reader).pos(), old(reader).order())
                && final(reader).pos() == old(reader).pos() + asb_header_size(h.version),
    {
        let ghost b = reader.bytes();
        let ghost p = reader.pos();
        let ghost e = reader.order();
        let magic = reader.read_bytes(4)?;
        assert(magic@.len() == 4);
        if !(magic[0] == 0x41 && magic[1] == 0x53 && magic[2] == 0x42 && magic[3] == 0x20) {
            return Err(invalid("invalid ASB magic"));
        }
        let version = reader.read_u32()?;
        if version != VERSION_417 && version != VERSION_40F {
            return Err(invalid("unsupported ASB version"));
        }
        let need: usize = if version == VERSION_417 { 100 } else { 96 };
        if reader.len() - reader.position() < need {
            return Err(eof("truncated ASB header"));
        }
        let filename_offset = reader.read_u32()?;
        let command_count = reader.read_u32()?;
        let node_count = reader.read_u32()?;
        let event_count = reader.read_u32()?;
        let slot_count = reader.read_u32()?;
        let x38_count = reader.read_u32()?;
        let local_blackboard_offset = reader.read_u32()?;
        let string_pool_offset = reader.read_u32()?;
        let enum_resolve_array_offset = reader.read_u32()?;
        let x2c_offset = reader.read_u32()?;
        let event_offsets_offset = reader.read_u32()?;
        let slots_offset = reader.read_u32()?;
        let x38_offset = reader.read_u32()?;
        let x38_index_offset = reader.read_u32()?;
        let x40_offset = reader.read_u32()?;
        let x40_count = reader.read_u32()?;
        let bone_group_offset = reader.read_u32()?;
        let bone_group_count = reader.read_u32()?;
        let string_pool_size = reader.read_u32()?;
        let transitions_offset = reader.read_u32()?;
        let tag_list_offset = reader.read_u32()?;
        let as_markings_offset = reader.read_u32()?;
        let exb_offset = reader.read_u32()?;
        let command_groups_offset = reader.read_u32()?;
        let x68_offset = if version == VERSION_417 {
            Some(reader.read_u32()?)
        } else {
            None
        };
        let expected: usize = if version == VERSION_417 { 0x6c } else { 0x68 };
        if reader.position() != expected {
            return Err(invalid("invalid ASB header size"));
        }
        Ok(AsbHeader {
            version,
            filename_offset,
            command_count,
            node_count,
            event_count,
            slot_count,
            x38_count,
            local_blackboard_offset,
            string_pool_offset,
            enum_resolve_array_offset,
            x2c_offset,
            event_offsets_offset,
            slots_offset,
            x38_offset,
            x38_index_offset,
            x40_offset,
            x40_count,
            bone_group_offset,
            bone_group_count,
            string_pool_size,
            transitions_offset,
            tag_list_offset,
            as_markings_offset,
            exb_offset,
            command_groups_offset,
            x68_offset,
        })
    }

    /// Checks that every section offset, and the end of the string pool, lies within
    /// a file of `len` bytes; fails with `InvalidData` otherwise.
    pub fn validate_offsets(&self, len: usize) -> (r: Result<(), Error>)
        ensures
            r is Ok <==> self.offsets_within(len as int),
            r matches Err(e) ==> e.kind == ErrorKind::InvalidData,
    {
        let offsets = [
            self.local_blackboard_offset,
            self.string_pool_offset,
            self.enum_resolve_array_offset,
            self.x2c_offset,
            self.event_offsets_offset,
            self.slots_offset,
            self.x38_offset,
            self.x38_index_offset,
            self.x40_offset,
            self.bone_group_offset,
            self.transitions_offset,
            self.tag_list_offset,
            self.as_markings_offset,
            self.exb_offset,
            self.command_groups_offset,
            match self.x68_offset {
                Some(v) => v,
                None => 0,
            },
        ];
        let ghost expect = self.section_offsets();
        assert(offsets@ =~= expect);
        let mut i: usize = 0;
        while i < 16
            invariant
                i <= 16,
                offsets@ == expect,
                expect == self.section_offsets(),
                forall|j: int| 0 <= j < i ==> expect[j] <= len,
            decreases 16 - i,
        {
            let o = offsets[i];
            assert(o == expect[i as int]);
            if o as u64 > len as u64 {
                assert(self.section_offsets()[i as int] > len);
                return Err(invalid("ASB section offset exceeds file size"));
            }
            i = i + 1;
        }
        let pool_end = self.string_pool_offset as u64 + self.string_pool_size as u64;
        if pool_end > len as u64 {
            return Err(invalid("ASB string pool exceeds file"));
        }
        Ok(())
    }

    /// The section offsets that `validate_offsets` checks, a missing last one read as zero.
    pub open spec fn section_offsets(&self) -> Seq<u32> {
        seq![
            self.local_blackboard_offset,
            self.string_pool_offset,
            self.enum_resolve_array_offset,
            self.x2c_offset,
            self.event_offsets_offset,
            self.slots_offset,
            self.x38_offset,
            self.x38_index_offset,
            self.x40_offset,
            self.bone_group_offset,
            self.transitions_offset,
            self.tag_list_offset,
            self.as_markings_offset,
            self.exb_offset,
            self.command_groups_offset,
            match self.x68_offset {
                Some(v) => v,
                None => 0u32,
            },
        ]
    }

    /// Whether all section offsets and the string pool lie within `len` bytes.
    pub open spec fn offsets_within(&self, len: int) -> bool {
        &&& forall|j: int| 0 <= j < 16 ==> self.section_offsets()[j] <= len
        &&& self.string_pool_offset + self.string_pool_size <= len
    }
}

} // verus!
